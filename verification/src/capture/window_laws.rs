//! What the compositors' replies say of windows, told without the searches
//! that read them: which nodes of a tree can be reached, which clients are on
//! screen, and which rectangle each of them has.

use vstd::prelude::*;

use crate::capture::active_output::Session;
use crate::capture::window::{
    all_compositors, children_of, client_window, compositors_asked, focused, focused_among,
    found_active, hides, hyprland_active, hyprland_active_reply, hyprland_stack, kwin_active_reply,
    kwin_geometry, label_of, layer_windows, leaf_of, leaf_windows, leaves, leaves_among,
    lemma_items_smaller, line_windows, monitor_with, no_active_text, no_windows_text, queried,
    shown_on, sway_active, sway_active_reply, sway_class, sway_stack, text_or_empty, ActiveWindow,
    CommandOutput, Compositor, Leaf, Reply, WindowSource,
};
use crate::error::VshotError;
use crate::geometry::Rect;
use crate::json::Tree;
use crate::text::{
    ascii_lower, decimal_text, joined, law_a_written_number_is_read_back,
    lemma_decimal_text_is_solid, lemma_words_of_word_and_rest, trimmed, words,
};

verus! {

// ---------------------------------------------------------------------------
// Nodes of a tree
// ---------------------------------------------------------------------------
/// A node is a child of another: it stands in its tiled or its floating list.
pub open spec fn is_child(parent: Tree, child: Tree) -> bool {
    ||| parent.items_field("nodes"@) matches Some(list) && list.contains(child)
    ||| parent.items_field("floating_nodes"@) matches Some(list) && list.contains(child)
}

/// The nodes lead from the first to the last, each of them a child of the one
/// before.
pub open spec fn is_chain(chain: Seq<Tree>) -> bool {
    &&& chain.len() > 0
    &&& forall|i: int| 0 <= i < chain.len() - 1 ==> is_child(#[trigger] chain[i], chain[i + 1])
}

/// A node can be reached from the root: it is the root, or a child of a node
/// that can be reached.
pub open spec fn reachable(root: Tree, node: Tree) -> bool {
    exists|chain: Seq<Tree>| #[trigger]
        is_chain(chain) && chain[0] == root && chain.last() == node
}

/// A node that says it is focused.
pub open spec fn has_focus(node: Tree) -> bool {
    node.flag_field("focused"@) == Some(true)
}

/// What the search for the focused node finds is in the tree and says itself
/// that it is focused.
pub proof fn law_the_focused_node_is_in_the_tree(root: Tree)
    ensures
        focused(root) matches Some(found) ==> has_focus(found) && reachable(root, found),
{
    if focused(root) is Some {
        let chain = lemma_chain_to_focused(root);
    }
}

proof fn lemma_chain_to_focused(root: Tree) -> (chain: Seq<Tree>)
    requires
        focused(root) is Some,
    ensures
        is_chain(chain),
        chain[0] == root,
        chain.last() == focused(root)->0,
        has_focus(chain.last()),
    decreases root, 0int,
{
    if has_focus(root) {
        seq![root]
    } else {
        lemma_items_smaller(root, "nodes"@);
        lemma_items_smaller(root, "floating_nodes"@);
        let tiled = root.items_field("nodes"@);
        let rest = if tiled is Some && focused_among(tiled->0, 0) is Some {
            lemma_chain_among(tiled->0, 0)
        } else {
            lemma_chain_among(root.items_field("floating_nodes"@)->0, 0)
        };
        let chain = seq![root] + rest;
        assert(is_child(root, rest[0]));
        assert forall|i: int| 0 <= i < chain.len() - 1 implies is_child(
            #[trigger] chain[i],
            chain[i + 1],
        ) by {
            if i > 0 {
                assert(chain[i] == rest[i - 1] && chain[i + 1] == rest[i]);
            }
        }
        assert(chain.last() == rest.last());
        chain
    }
}

proof fn lemma_chain_among(nodes: Seq<Tree>, from: int) -> (chain: Seq<Tree>)
    requires
        0 <= from,
        focused_among(nodes, from) is Some,
    ensures
        is_chain(chain),
        nodes.contains(chain[0]),
        chain.last() == focused_among(nodes, from)->0,
        has_focus(chain.last()),
    decreases nodes, nodes.len() - from,
{
    if focused(nodes[from]) is Some {
        lemma_chain_to_focused(nodes[from])
    } else {
        lemma_chain_among(nodes, from + 1)
    }
}

/// A focused node that can be reached is never missed: the search finds none
/// only where no node of the tree, tiled or floating, is focused.
pub proof fn law_no_focused_node_is_missed(root: Tree, node: Tree)
    requires
        reachable(root, node),
        has_focus(node),
    ensures
        focused(root) is Some,
{
    let chain = choose|chain: Seq<Tree>| #[trigger]
        is_chain(chain) && chain[0] == root && chain.last() == node;
    lemma_focused_along(chain);
}

proof fn lemma_focused_along(chain: Seq<Tree>)
    requires
        is_chain(chain),
        has_focus(chain.last()),
    ensures
        focused(chain[0]) is Some,
    decreases chain.len(),
{
    if chain.len() > 1 && !has_focus(chain[0]) {
        let rest = chain.drop_first();
        assert forall|i: int| 0 <= i < rest.len() - 1 implies is_child(
            #[trigger] rest[i],
            rest[i + 1],
        ) by {
            assert(rest[i] == chain[i + 1] && rest[i + 1] == chain[i + 2]);
        }
        assert(rest.last() == chain.last());
        lemma_focused_along(rest);
        assert(is_child(chain[0], chain[1]));
        let (root, child) = (chain[0], chain[1]);
        if let Some(list) = root.items_field("nodes"@) {
            if list.contains(child) {
                let at = choose|at: int| 0 <= at < list.len() && list[at] == child;
                lemma_among_finds(list, 0, at);
            }
        }
        if let Some(list) = root.items_field("floating_nodes"@) {
            if list.contains(child) {
                let at = choose|at: int| 0 <= at < list.len() && list[at] == child;
                lemma_among_finds(list, 0, at);
            }
        }
    }
}

proof fn lemma_among_finds(nodes: Seq<Tree>, from: int, at: int)
    requires
        0 <= from <= at < nodes.len(),
        focused(nodes[at]) is Some,
    ensures
        focused_among(nodes, from) is Some,
    decreases at - from,
{
    if from < at && focused(nodes[from]) is None {
        lemma_among_finds(nodes, from + 1, at);
    }
}

/// Where several nodes are focused, a node comes before its children, a tiled
/// child before a floating one, and a child before the ones after it.
pub proof fn law_the_outermost_and_first_focused_node_is_found(root: Tree, at: int)
    ensures
        has_focus(root) ==> focused(root) == Some(root),
        !has_focus(root) ==> (root.items_field("nodes"@) matches Some(list) ==> {
            &&& 0 <= at < list.len()
            &&& focused(list[at]) is Some
            &&& forall|i: int| 0 <= i < at ==> focused(#[trigger] list[i]) is None
        } ==> focused(root) == focused(list[at])),
        !has_focus(root) && (root.items_field("nodes"@) matches Some(list) ==> forall|i: int|
            0 <= i < list.len() ==> focused(#[trigger] list[i]) is None) ==> (root.items_field(
            "floating_nodes"@,
        ) matches Some(list) ==> {
            &&& 0 <= at < list.len()
            &&& focused(list[at]) is Some
            &&& forall|i: int| 0 <= i < at ==> focused(#[trigger] list[i]) is None
        } ==> focused(root) == focused(list[at])),
{
    if !has_focus(root) {
        if let Some(list) = root.items_field("nodes"@) {
            if 0 <= at < list.len() && focused(list[at]) is Some && (forall|i: int|
                0 <= i < at ==> focused(#[trigger] list[i]) is None) {
                lemma_among_is(list, 0, at);
            }
            if forall|i: int| 0 <= i < list.len() ==> focused(#[trigger] list[i]) is None {
                lemma_among_is_none(list, 0);
            }
        }
        if let Some(list) = root.items_field("floating_nodes"@) {
            if 0 <= at < list.len() && focused(list[at]) is Some && (forall|i: int|
                0 <= i < at ==> focused(#[trigger] list[i]) is None) {
                lemma_among_is(list, 0, at);
            }
        }
    }
}

proof fn lemma_among_is(nodes: Seq<Tree>, from: int, at: int)
    requires
        0 <= from <= at < nodes.len(),
        focused(nodes[at]) is Some,
        forall|i: int| from <= i < at ==> focused(#[trigger] nodes[i]) is None,
    ensures
        focused_among(nodes, from) == focused(nodes[at]),
    decreases at - from,
{
    if from < at {
        assert(focused(nodes[from]) is None);
        lemma_among_is(nodes, from + 1, at);
    }
}

proof fn lemma_among_is_none(nodes: Seq<Tree>, from: int)
    requires
        0 <= from,
        forall|i: int| from <= i < nodes.len() ==> focused(#[trigger] nodes[i]) is None,
    ensures
        focused_among(nodes, from) is None,
    decreases nodes.len() - from,
{
    if from < nodes.len() {
        lemma_among_is_none(nodes, from + 1);
    }
}

/// A rectangle that is written as four numbers of an object, and covers
/// something.
pub open spec fn written_as(rect: Rect, object: Tree) -> bool {
    &&& object.signed_field("x"@) == Some(rect.origin.x as i64)
    &&& object.signed_field("y"@) == Some(rect.origin.y as i64)
    &&& object.unsigned_field("width"@) == Some(rect.size.width as u64)
    &&& object.unsigned_field("height"@) == Some(rect.size.height as u64)
    &&& rect.size.width > 0
    &&& rect.size.height > 0
}

/// Sway's active window is the rectangle that the focused node writes down, and
/// there is one whenever a node is focused and writes down one that covers
/// something.
pub proof fn law_sways_active_window_is_the_focused_nodes_rectangle(root: Tree, rect: Rect)
    ensures
        sway_active(root) == Ok::<Rect, Seq<char>>(rect) <==> (focused(root) matches Some(node) && (
        node.field("rect"@) matches Some(object) && written_as(rect, object))),
{
}

/// A rectangle that is written as a pair of positions and a pair of lengths,
/// and covers something.
pub open spec fn written_in_pairs(rect: Rect, object: Tree) -> bool {
    &&& object.items_field("at"@) matches Some(at)
    &&& object.items_field("size"@) matches Some(size)
    &&& at.len() == 2
    &&& size.len() == 2
    &&& at[0].signed() == Some(rect.origin.x as i64)
    &&& at[1].signed() == Some(rect.origin.y as i64)
    &&& size[0].unsigned() == Some(rect.size.width as u64)
    &&& size[1].unsigned() == Some(rect.size.height as u64)
    &&& rect.size.width > 0
    &&& rect.size.height > 0
}

/// Hyprland's active window is the rectangle its reply writes down, and there
/// is one whenever it writes down one that covers something.
pub proof fn law_hyprlands_active_window_is_the_rectangle_it_writes(object: Tree, rect: Rect)
    ensures
        hyprland_active(object) == Ok::<Rect, Seq<char>>(rect) <==> written_in_pairs(rect, object),
{
}

/// A rectangle that covers something is read back from the four words that
/// KWin's probe writes it as.
pub proof fn law_a_rectangle_of_the_probe_is_read_back(rect: Rect)
    requires
        rect.size.width > 0,
        rect.size.height > 0,
    ensures
        kwin_geometry(
            decimal_text(rect.origin.x as int).push(' ') + (decimal_text(rect.origin.y as int).push(
                ' ',
            ) + (decimal_text(rect.size.width as int).push(' ') + decimal_text(
                rect.size.height as int,
            ))),
        ) == Ok::<Rect, Seq<char>>(rect),
{
    let (x, y) = (decimal_text(rect.origin.x as int), decimal_text(rect.origin.y as int));
    let (w, h) = (decimal_text(rect.size.width as int), decimal_text(rect.size.height as int));
    law_a_written_number_is_read_back(rect.origin.x as int);
    law_a_written_number_is_read_back(rect.origin.y as int);
    law_a_written_number_is_read_back(rect.size.width as int);
    law_a_written_number_is_read_back(rect.size.height as int);
    lemma_decimal_text_is_solid(rect.origin.x as int);
    lemma_decimal_text_is_solid(rect.origin.y as int);
    lemma_decimal_text_is_solid(rect.size.width as int);
    lemma_decimal_text_is_solid(rect.size.height as int);
    let lengths = w.push(' ') + h;
    lemma_words_of_word_and_rest(x, ' ', y.push(' ') + lengths);
    lemma_words_of_word_and_rest(y, ' ', lengths);
    lemma_words_of_word_and_rest(w, ' ', h);
    lemma_words_of_word_and_rest(h, ' ', Seq::empty());
    let text = x.push(' ') + (y.push(' ') + lengths);
    assert(words(text) =~= seq![x, y, w, h]);
}

// ---------------------------------------------------------------------------
// Hyprland's list
// ---------------------------------------------------------------------------
/// The layer a client is drawn in: nought for a tiled one, one for a floating
/// one, two for one that is pinned as well.
pub open spec fn drawn_in(client: Tree) -> int {
    match (client.flag_field("floating"@) == Some(true), client.flag_field("pinned"@) == Some(true)) {
        (true, true) => 2,
        (true, false) => 1,
        _ => 0,
    }
}

/// Hyprland's list holds every client that is on screen, once, and nothing
/// else; the clients of a higher layer come after those of a lower one, and
/// those of one layer in Hyprland's own order.  `from` tells which client each
/// entry is.
pub proof fn law_hyprlands_windows_are_listed_bottom_to_top(
    clients: Seq<Tree>,
    monitors: Seq<Tree>,
) -> (from: Seq<int>)
    ensures
        ({
            let stack = hyprland_stack(clients, monitors);
            &&& from.len() == stack.len()
            &&& forall|k: int|
                0 <= k < from.len() ==> 0 <= #[trigger] from[k] < clients.len() && client_window(
                    clients[from[k]],
                    monitors,
                ) == Some(stack[k])
            &&& forall|j: int, k: int|
                0 <= j < k < from.len() ==> drawn_in(clients[#[trigger] from[j]]) < drawn_in(
                    clients[#[trigger] from[k]],
                ) || drawn_in(clients[from[j]]) == drawn_in(clients[from[k]]) && from[j] < from[k]
            &&& forall|i: int|
                0 <= i < clients.len() && (#[trigger] client_window(clients[i], monitors)) is Some
                    ==> from.contains(i)
        }),
{
    let n = clients.len() as int;
    let a = lemma_layer_in_order(clients, monitors, 0, n);
    let b = lemma_layer_in_order(clients, monitors, 1, n);
    let c = lemma_layer_in_order(clients, monitors, 2, n);
    let from = a + b + c;
    assert forall|k: int| 0 <= k < from.len() implies 0 <= #[trigger] from[k] < clients.len()
        && client_window(clients[from[k]], monitors) == Some(
        hyprland_stack(clients, monitors)[k],
    ) by {
        if k < a.len() {
            assert(from[k] == a[k]);
        } else if k < a.len() + b.len() {
            assert(from[k] == b[k - a.len()]);
        } else {
            assert(from[k] == c[k - a.len() - b.len()]);
        }
    }
    assert forall|j: int, k: int| 0 <= j < k < from.len() implies drawn_in(
        clients[#[trigger] from[j]],
    ) < drawn_in(clients[#[trigger] from[k]]) || drawn_in(clients[from[j]]) == drawn_in(
        clients[from[k]],
    ) && from[j] < from[k] by {
        lemma_where(a, b, c, j);
        lemma_where(a, b, c, k);
    }
    assert forall|i: int|
        0 <= i < clients.len() && (#[trigger] client_window(clients[i], monitors)) is Some implies
        from.contains(i) by {
        if drawn_in(clients[i]) == 0 {
            assert(a.contains(i));
            let k = choose|k: int| 0 <= k < a.len() && a[k] == i;
            assert(from[k] == i);
        } else if drawn_in(clients[i]) == 1 {
            assert(b.contains(i));
            let k = choose|k: int| 0 <= k < b.len() && b[k] == i;
            assert(from[a.len() + k] == i);
        } else {
            assert(c.contains(i));
            let k = choose|k: int| 0 <= k < c.len() && c[k] == i;
            assert(from[a.len() + b.len() + k] == i);
        }
    }
    from
}

proof fn lemma_where(a: Seq<int>, b: Seq<int>, c: Seq<int>, k: int)
    requires
        0 <= k < (a + b + c).len(),
    ensures
        k < a.len() ==> (a + b + c)[k] == a[k],
        a.len() <= k < a.len() + b.len() ==> (a + b + c)[k] == b[k - a.len()],
        k >= a.len() + b.len() ==> (a + b + c)[k] == c[k - a.len() - b.len()],
{
}

proof fn lemma_layer_in_order(clients: Seq<Tree>, monitors: Seq<Tree>, layer: int, n: int) -> (from:
    Seq<int>)
    requires
        0 <= n <= clients.len(),
    ensures
        ({
            let windows = layer_windows(clients, monitors, layer, n);
            &&& from.len() == windows.len()
            &&& forall|k: int|
                0 <= k < from.len() ==> 0 <= #[trigger] from[k] < n && client_window(
                    clients[from[k]],
                    monitors,
                ) == Some(windows[k]) && drawn_in(clients[from[k]]) == layer
            &&& forall|j: int, k: int| 0 <= j < k < from.len() ==> from[j] < from[k]
            &&& forall|i: int|
                0 <= i < n && (#[trigger] client_window(clients[i], monitors)) is Some && drawn_in(
                    clients[i],
                ) == layer ==> from.contains(i)
        }),
    decreases n,
{
    if n <= 0 {
        Seq::empty()
    } else {
        let before = lemma_layer_in_order(clients, monitors, layer, n - 1);
        if client_window(clients[n - 1], monitors) is Some && drawn_in(clients[n - 1]) == layer {
            let from = before.push(n - 1);
            assert forall|i: int|
                0 <= i < n && (#[trigger] client_window(clients[i], monitors)) is Some && drawn_in(
                    clients[i],
                ) == layer implies from.contains(i) by {
                if i < n - 1 {
                    let k = choose|k: int| 0 <= k < before.len() && before[k] == i;
                    assert(from[k] == i);
                } else {
                    assert(from[from.len() - 1] == i);
                }
            }
            from
        } else {
            before
        }
    }
}

/// A client is a window on screen exactly when it writes down a rectangle that
/// covers something, the first monitor with the number it reports shows it, by
/// its workspace or because it is pinned, and the rectangle lands on that
/// monitor but for four pixels either way.  It is listed with that rectangle
/// and under its own class and title.
pub proof fn law_a_client_is_listed_where_its_monitor_shows_it(
    client: Tree,
    monitors: Seq<Tree>,
    at: int,
    rect: Rect,
)
    requires
        0 <= at < monitors.len(),
        client.unsigned_field("monitor"@) is Some,
        monitors[at].unsigned_field("id"@) == client.unsigned_field("monitor"@),
        forall|i: int|
            0 <= i < at ==> (#[trigger] monitors[i]).unsigned_field("id"@) != client.unsigned_field(
                "monitor"@,
            ),
    ensures
        client_window(client, monitors) == Some(
            (
                rect,
                label_of(
                    text_or_empty(client.text_field("class"@)),
                    text_or_empty(client.text_field("title"@)),
                ),
            ),
        ) <==> {
            &&& written_in_pairs(rect, client)
            &&& shown_on(monitors[at]) matches Some(shown)
            &&& client.flag_field("pinned"@) == Some(true) || shown.shows(client)
            &&& rect.right_edge() <= i32::MAX && rect.bottom_edge() <= i32::MAX
            &&& shown.bounds.right_edge() <= i32::MAX && shown.bounds.bottom_edge() <= i32::MAX
            &&& shown.bounds.origin.x - 4 <= rect.origin.x
            &&& shown.bounds.origin.y - 4 <= rect.origin.y
            &&& rect.right_edge() <= shown.bounds.right_edge() + 4
            &&& rect.bottom_edge() <= shown.bounds.bottom_edge() + 4
        },
        client_window(client, monitors) matches Some((place, label)) ==> label == label_of(
            text_or_empty(client.text_field("class"@)),
            text_or_empty(client.text_field("title"@)),
        ) && written_in_pairs(place, client),
{
    lemma_monitor_is(monitors, client.unsigned_field("monitor"@)->0, 0, at);
}

proof fn lemma_monitor_is(monitors: Seq<Tree>, id: u64, from: int, at: int)
    requires
        0 <= from <= at < monitors.len(),
        monitors[at].unsigned_field("id"@) == Some(id),
        forall|i: int|
            from <= i < at ==> (#[trigger] monitors[i]).unsigned_field("id"@) != Some(id),
    ensures
        monitor_with(monitors, id, from) == Some(monitors[at]),
    decreases at - from,
{
    if from < at {
        assert(monitors[from].unsigned_field("id"@) != Some(id));
        lemma_monitor_is(monitors, id, from + 1, at);
    }
}

/// A client that reports no monitor, or one that is not in the list, is not on
/// screen.
pub proof fn law_a_client_without_a_monitor_is_not_listed(client: Tree, monitors: Seq<Tree>)
    requires
        client.unsigned_field("monitor"@) is None || forall|i: int|
            0 <= i < monitors.len() ==> (#[trigger] monitors[i]).unsigned_field("id"@)
                != client.unsigned_field("monitor"@),
    ensures
        client_window(client, monitors) is None,
{
    if let Some(id) = client.unsigned_field("monitor"@) {
        lemma_no_monitor(monitors, id, 0);
    }
}

proof fn lemma_no_monitor(monitors: Seq<Tree>, id: u64, from: int)
    requires
        0 <= from,
        forall|i: int|
            from <= i < monitors.len() ==> (#[trigger] monitors[i]).unsigned_field("id"@) != Some(
                id,
            ),
    ensures
        monitor_with(monitors, id, from) is None,
    decreases monitors.len() - from,
{
    if from < monitors.len() {
        lemma_no_monitor(monitors, id, from + 1);
    }
}

/// A workspace goes by its address, else its name, else its number.
pub open spec fn called(workspace: Option<Tree>, name: Seq<char>) -> bool {
    workspace matches Some(object) && {
        ||| named_under(object, "address"@, name)
        ||| !has_name_under(object, "address"@) && named_under(object, "name"@, name)
        ||| !has_name_under(object, "address"@) && !has_name_under(object, "name"@) && named_under(
            object,
            "id"@,
            name,
        )
    }
}

/// What stands under the key is this name: a text that is not empty, or a
/// number in decimal.
pub open spec fn named_under(object: Tree, key: Seq<char>, name: Seq<char>) -> bool {
    ||| object.text_field(key) == Some(name) && name.len() > 0
    ||| object.signed_field(key) matches Some(number) && name == decimal_text(number as int)
}

pub open spec fn has_name_under(object: Tree, key: Seq<char>) -> bool {
    ||| object.text_field(key) matches Some(text) && text.len() > 0
    ||| object.signed_field(key) is Some
}

/// A monitor shows a client's workspace exactly when the workspace has a name
/// and that is the name of the monitor's own workspace, or of the special one
/// on top of it.
pub proof fn law_a_monitor_shows_its_own_workspace_and_the_special_one(
    client: Tree,
    monitor: Tree,
    name: Seq<char>,
)
    requires
        called(client.field("workspace"@), name),
        shown_on(monitor) is Some,
    ensures
        shown_on(monitor)->0.shows(client) <==> called(monitor.field("activeWorkspace"@), name)
            || called(monitor.field("specialWorkspace"@), name),
        fits_place(monitor, shown_on(monitor)->0.bounds),
{
    lemma_decimal_text_of_ids(client.field("workspace"@));
    lemma_decimal_text_of_ids(monitor.field("activeWorkspace"@));
    lemma_decimal_text_of_ids(monitor.field("specialWorkspace"@));
}

/// Every number in decimal is a name that is not empty.
proof fn lemma_decimal_text_of_ids(workspace: Option<Tree>)
    ensures
        workspace matches Some(object) ==> {
            &&& object.signed_field("address"@) matches Some(n) ==> decimal_text(n as int).len() > 0
            &&& object.signed_field("name"@) matches Some(n) ==> decimal_text(n as int).len() > 0
            &&& object.signed_field("id"@) matches Some(n) ==> decimal_text(n as int).len() > 0
        },
{
    if let Some(object) = workspace {
        if let Some(n) = object.signed_field("address"@) {
            lemma_decimal_text_is_solid(n as int);
        }
        if let Some(n) = object.signed_field("name"@) {
            lemma_decimal_text_is_solid(n as int);
        }
        if let Some(n) = object.signed_field("id"@) {
            lemma_decimal_text_is_solid(n as int);
        }
    }
}

/// The rectangle stands where the monitor says.
pub open spec fn fits_place(monitor: Tree, bounds: Rect) -> bool {
    &&& monitor.signed_field("x"@) == Some(bounds.origin.x as i64)
    &&& monitor.signed_field("y"@) == Some(bounds.origin.y as i64)
}

// ---------------------------------------------------------------------------
// KWin's list
// ---------------------------------------------------------------------------
/// Every line of KWin's probe that writes a rectangle is a window without a
/// label, in the order of the lines, and there are no others.  `from` tells
/// which line each window comes from.
pub proof fn law_kwins_windows_are_its_lines_in_order(list: Seq<Seq<char>>) -> (from: Seq<int>)
    ensures
        ({
            let windows = line_windows(list, list.len() as int);
            &&& from.len() == windows.len()
            &&& forall|k: int|
                0 <= k < from.len() ==> 0 <= #[trigger] from[k] < list.len() && kwin_geometry(
                    trimmed(list[from[k]]),
                ) == Ok::<Rect, Seq<char>>(windows[k].0) && windows[k].1.len() == 0
            &&& forall|j: int, k: int| 0 <= j < k < from.len() ==> from[j] < from[k]
            &&& forall|i: int|
                0 <= i < list.len() && kwin_geometry(trimmed(#[trigger] list[i])) is Ok
                    ==> from.contains(i)
        }),
{
    lemma_lines_in_order(list, list.len() as int)
}

proof fn lemma_lines_in_order(list: Seq<Seq<char>>, n: int) -> (from: Seq<int>)
    requires
        0 <= n <= list.len(),
    ensures
        ({
            let windows = line_windows(list, n);
            &&& from.len() == windows.len()
            &&& forall|k: int|
                0 <= k < from.len() ==> 0 <= #[trigger] from[k] < n && kwin_geometry(
                    trimmed(list[from[k]]),
                ) == Ok::<Rect, Seq<char>>(windows[k].0) && windows[k].1.len() == 0
            &&& forall|j: int, k: int| 0 <= j < k < from.len() ==> from[j] < from[k]
            &&& forall|i: int|
                0 <= i < n && kwin_geometry(trimmed(#[trigger] list[i])) is Ok ==> from.contains(i)
        }),
    decreases n,
{
    if n <= 0 {
        Seq::empty()
    } else {
        let before = lemma_lines_in_order(list, n - 1);
        let line = trimmed(list[n - 1]);
        if line.len() == 0 {
            assert(words(line).len() == 0);
            before
        } else if kwin_geometry(line) is Ok {
            let from = before.push(n - 1);
            assert forall|i: int|
                0 <= i < n && kwin_geometry(trimmed(#[trigger] list[i])) is Ok implies from.contains(
                i,
            ) by {
                if i < n - 1 {
                    let k = choose|k: int| 0 <= k < before.len() && before[k] == i;
                    assert(from[k] == i);
                } else {
                    assert(from[from.len() - 1] == i);
                }
            }
            from
        } else {
            before
        }
    }
}

// ---------------------------------------------------------------------------
// Sway's tree
// ---------------------------------------------------------------------------
/// One step down a tree: to a tiled or to a floating child.
pub open spec fn steps_to(parent: Tree, raised: bool, child: Tree) -> bool {
    parent.items_field(
        if raised {
            "floating_nodes"@
        } else {
            "nodes"@
        },
    ) matches Some(list) && list.contains(child)
}

/// A way down a tree: `raised[i]` tells whether the step from `chain[i]` goes
/// to a floating child.
pub open spec fn is_way(chain: Seq<Tree>, raised: Seq<bool>) -> bool {
    &&& chain.len() > 0
    &&& raised.len() == chain.len() - 1
    &&& forall|i: int|
        0 <= i < raised.len() ==> steps_to(#[trigger] chain[i], raised[i], chain[i + 1])
}

/// A node without children.
pub open spec fn is_leaf(node: Tree) -> bool {
    &&& node.items_field("nodes"@) matches Some(list) ==> list.len() == 0
    &&& node.items_field("floating_nodes"@) matches Some(list) ==> list.len() == 0
}

/// A workspace that is not shown.
pub open spec fn is_hidden_workspace(node: Tree) -> bool {
    node.text_field("type"@) == Some("workspace"@) && node.flag_field("visible"@) == Some(false)
}

/// Every window of Sway's list is a leaf of the tree at the end of a way that
/// no hidden workspace lies on, with the rectangle and the label that leaf
/// writes down.
pub proof fn law_a_listed_sway_window_is_a_visible_leaf(root: Tree, at: int) -> (way: (
    Seq<Tree>,
    Seq<bool>,
))
    requires
        0 <= at < sway_stack(root).len(),
    ensures
        is_way(way.0, way.1),
        way.0[0] == root,
        is_leaf(way.0.last()),
        forall|i: int| 0 <= i < way.0.len() ==> !is_hidden_workspace(#[trigger] way.0[i]),
        way.0.last().field("rect"@) matches Some(object) && written_as(
            sway_stack(root)[at].0,
            object,
        ),
        sway_stack(root)[at].1 == label_of(
            sway_class(way.0.last()),
            text_or_empty(way.0.last().text_field("name"@)),
        ),
{
    let all = leaves(root, true, false);
    let tiled = leaf_windows(all, false);
    let k = if at < tiled.len() {
        lemma_leaf_of_window(all, false, at)
    } else {
        lemma_leaf_of_window(all, true, at - tiled.len())
    };
    lemma_way_to_leaf(root, true, false, k)
}

proof fn lemma_leaf_of_window(all: Seq<Leaf>, floating: bool, at: int) -> (k: int)
    requires
        0 <= at < leaf_windows(all, floating).len(),
    ensures
        0 <= k < all.len(),
        all[k].floating == floating,
        leaf_windows(all, floating)[at] == (all[k].rect, all[k].label),
    decreases all.len(),
{
    let before = leaf_windows(all.drop_last(), floating);
    if at < before.len() {
        lemma_leaf_of_window(all.drop_last(), floating, at)
    } else {
        all.len() - 1
    }
}

/// The leaf behind an entry, and the way to it.
proof fn lemma_way_to_leaf(node: Tree, visible: bool, floating: bool, k: int) -> (way: (
    Seq<Tree>,
    Seq<bool>,
))
    requires
        0 <= k < leaves(node, visible, floating).len(),
    ensures
        visible,
        is_way(way.0, way.1),
        way.0[0] == node,
        is_leaf(way.0.last()),
        forall|i: int| 0 <= i < way.0.len() ==> !is_hidden_workspace(#[trigger] way.0[i]),
        ({
            let leaf = leaves(node, visible, floating)[k];
            &&& way.0.last().field("rect"@) matches Some(object)
            &&& written_as(leaf.rect, object)
            &&& leaf.label == label_of(
                sway_class(way.0.last()),
                text_or_empty(way.0.last().text_field("name"@)),
            )
            &&& leaf.floating == (floating || way.1.contains(true))
        }),
    decreases node, 0int,
{
    let seen = visible && !hides(node);
    let tiled = children_of(node, "nodes"@);
    let raised = children_of(node, "floating_nodes"@);
    if tiled.len() == 0 && raised.len() == 0 {
        let way = (seq![node], Seq::<bool>::empty());
        assert(leaf_of(node, floating).len() == 1);
        assert(!way.1.contains(true));
        way
    } else {
        lemma_items_smaller(node, "nodes"@);
        lemma_items_smaller(node, "floating_nodes"@);
        let first = if tiled.len() > 0 {
            leaves_among(tiled, seen, floating, tiled.len() as int)
        } else {
            Seq::empty()
        };
        let into_tiled = k < first.len();
        let below = if into_tiled {
            lemma_way_among(tiled, seen, floating, tiled.len() as int, k)
        } else {
            lemma_way_among(raised, seen, true, raised.len() as int, k - first.len())
        };
        let chain = seq![node] + below.0;
        let steps = seq![!into_tiled] + below.1;
        assert forall|i: int| 0 <= i < steps.len() implies steps_to(
            #[trigger] chain[i],
            steps[i],
            chain[i + 1],
        ) by {
            if i > 0 {
                assert(chain[i] == below.0[i - 1] && chain[i + 1] == below.0[i] && steps[i]
                    == below.1[i - 1]);
            }
        }
        assert(chain.last() == below.0.last());
        assert forall|i: int| 0 <= i < chain.len() implies !is_hidden_workspace(
            #[trigger] chain[i],
        ) by {
            if i > 0 {
                assert(chain[i] == below.0[i - 1]);
            }
        }
        assert(steps.contains(true) <==> !into_tiled || below.1.contains(true)) by {
            if !into_tiled {
                assert(steps[0] == true);
            } else {
                if below.1.contains(true) {
                    let i = choose|i: int| 0 <= i < below.1.len() && below.1[i] == true;
                    assert(steps[i + 1] == true);
                }
                if steps.contains(true) {
                    let i = choose|i: int| 0 <= i < steps.len() && steps[i] == true;
                    assert(below.1[i - 1] == true);
                }
            }
        }
        (chain, steps)
    }
}

proof fn lemma_way_among(nodes: Seq<Tree>, visible: bool, floating: bool, n: int, k: int) -> (way: (
    Seq<Tree>,
    Seq<bool>,
))
    requires
        0 <= n <= nodes.len(),
        0 <= k < leaves_among(nodes, visible, floating, n).len(),
    ensures
        visible,
        is_way(way.0, way.1),
        nodes.contains(way.0[0]),
        is_leaf(way.0.last()),
        forall|i: int| 0 <= i < way.0.len() ==> !is_hidden_workspace(#[trigger] way.0[i]),
        ({
            let leaf = leaves_among(nodes, visible, floating, n)[k];
            &&& way.0.last().field("rect"@) matches Some(object)
            &&& written_as(leaf.rect, object)
            &&& leaf.label == label_of(
                sway_class(way.0.last()),
                text_or_empty(way.0.last().text_field("name"@)),
            )
            &&& leaf.floating == (floating || way.1.contains(true))
        }),
    decreases nodes, n,
{
    let before = leaves_among(nodes, visible, floating, n - 1);
    if k < before.len() {
        lemma_way_among(nodes, visible, floating, n - 1, k)
    } else {
        lemma_way_to_leaf(nodes[n - 1], visible, floating, k - before.len())
    }
}

/// Every leaf at the end of a way that no hidden workspace lies on is listed
/// with the rectangle it writes down, as long as that covers something; and a
/// leaf below a floating container stands above all that are not.  `at` tells
/// where it is listed.
pub proof fn law_a_visible_sway_leaf_is_listed(
    chain: Seq<Tree>,
    raised: Seq<bool>,
    rect: Rect,
) -> (at: int)
    requires
        is_way(chain, raised),
        is_leaf(chain.last()),
        forall|i: int| 0 <= i < chain.len() ==> !is_hidden_workspace(#[trigger] chain[i]),
        chain.last().field("rect"@) matches Some(object) && written_as(rect, object),
    ensures
        0 <= at < sway_stack(chain[0]).len(),
        sway_stack(chain[0])[at] == (
            rect,
            label_of(
                sway_class(chain.last()),
                text_or_empty(chain.last().text_field("name"@)),
            ),
        ),
        raised.contains(true) <==> at >= leaf_windows(leaves(chain[0], true, false), false).len(),
{
    let all = leaves(chain[0], true, false);
    let tiled = leaf_windows(all, false);
    let k = lemma_leaf_along_way(chain, raised, rect, false);
    let at = lemma_window_of_leaf(all, k);
    if all[k].floating {
        tiled.len() + at
    } else {
        at
    }
}

proof fn lemma_window_of_leaf(all: Seq<Leaf>, k: int) -> (at: int)
    requires
        0 <= k < all.len(),
    ensures
        0 <= at < leaf_windows(all, all[k].floating).len(),
        leaf_windows(all, all[k].floating)[at] == (all[k].rect, all[k].label),
    decreases all.len(),
{
    if k < all.len() - 1 {
        lemma_window_of_leaf(all.drop_last(), k)
    } else {
        leaf_windows(all, all[k].floating).len() - 1
    }
}

proof fn lemma_leaf_along_way(
    chain: Seq<Tree>,
    raised: Seq<bool>,
    rect: Rect,
    floating: bool,
) -> (k: int)
    requires
        is_way(chain, raised),
        is_leaf(chain.last()),
        forall|i: int| 0 <= i < chain.len() ==> !is_hidden_workspace(#[trigger] chain[i]),
        chain.last().field("rect"@) matches Some(object) && written_as(rect, object),
    ensures
        0 <= k < leaves(chain[0], true, floating).len(),
        leaves(chain[0], true, floating)[k] == (Leaf {
            floating: floating || raised.contains(true),
            rect,
            label: label_of(
                sway_class(chain.last()),
                text_or_empty(chain.last().text_field("name"@)),
            ),
        }),
    decreases chain.len(),
{
    let node = chain[0];
    assert(!is_hidden_workspace(chain[0]));
    let tiled = children_of(node, "nodes"@);
    let up = children_of(node, "floating_nodes"@);
    if chain.len() == 1 {
        assert(raised.len() == 0);
        assert(!raised.contains(true));
        assert(leaf_of(node, floating).len() == 1);
        0
    } else {
        let (below, steps) = (chain.drop_first(), raised.drop_first());
        assert forall|i: int| 0 <= i < steps.len() implies steps_to(
            #[trigger] below[i],
            steps[i],
            below[i + 1],
        ) by {
            assert(below[i] == chain[i + 1] && below[i + 1] == chain[i + 2] && steps[i] == raised[i
                + 1]);
        }
        assert(below.last() == chain.last());
        assert forall|i: int| 0 <= i < below.len() implies !is_hidden_workspace(
            #[trigger] below[i],
        ) by {
            assert(below[i] == chain[i + 1]);
        }
        assert(steps_to(chain[0], raised[0], chain[1]));
        let float = floating || raised[0];
        let k = lemma_leaf_along_way(below, steps, rect, float);
        assert(raised.contains(true) <==> raised[0] || steps.contains(true)) by {
            if steps.contains(true) {
                let i = choose|i: int| 0 <= i < steps.len() && steps[i] == true;
                assert(raised[i + 1] == true);
            }
            if raised.contains(true) && !raised[0] {
                let i = choose|i: int| 0 <= i < raised.len() && raised[i] == true;
                assert(steps[i - 1] == true);
            }
        }
        let list = if raised[0] {
            up
        } else {
            tiled
        };
        let at = choose|at: int| 0 <= at < list.len() && list[at] == chain[1];
        let j = lemma_leaf_among(list, true, float, list.len() as int, at, k);
        let first = if tiled.len() > 0 {
            leaves_among(tiled, true, floating, tiled.len() as int)
        } else {
            Seq::empty()
        };
        if raised[0] {
            first.len() + j
        } else {
            j
        }
    }
}

proof fn lemma_leaf_among(
    nodes: Seq<Tree>,
    visible: bool,
    floating: bool,
    n: int,
    at: int,
    k: int,
) -> (j: int)
    requires
        0 <= at < n <= nodes.len(),
        0 <= k < leaves(nodes[at], visible, floating).len(),
    ensures
        0 <= j < leaves_among(nodes, visible, floating, n).len(),
        leaves_among(nodes, visible, floating, n)[j] == leaves(nodes[at], visible, floating)[k],
    decreases n,
{
    if at == n - 1 {
        leaves_among(nodes, visible, floating, n - 1).len() + k
    } else {
        lemma_leaf_among(nodes, visible, floating, n - 1, at, k)
    }
}

// ---------------------------------------------------------------------------
// Labels and questions
// ---------------------------------------------------------------------------
/// A label is the class and the title without the white space around them, with
/// a dash between them; it is the one alone where the other says nothing, and
/// the class alone where the two differ in ASCII case at most.
pub proof fn law_a_label_is_the_class_and_the_title(class: Seq<char>, title: Seq<char>)
    ensures
        ({
            let (c, t) = (trimmed(class), trimmed(title));
            let same = c.len() == t.len() && forall|i: int|
                0 <= i < c.len() ==> ascii_lower(#[trigger] c[i]) == ascii_lower(t[i]);
            &&& c.len() == 0 ==> label_of(class, title) == t
            &&& t.len() == 0 ==> label_of(class, title) == c
            &&& same ==> label_of(class, title) == c
            &&& c.len() > 0 && t.len() > 0 && !same ==> label_of(class, title) == c + " — "@ + t
        }),
{
    if trimmed(class).len() == 0 && trimmed(title).len() == 0 {
        assert(trimmed(class) =~= trimmed(title));
    }
}

/// A Sway window is labelled with its app id, and only where it has none with
/// the class of its X11 properties.
pub proof fn law_an_app_id_comes_before_an_x11_class(node: Tree)
    ensures
        node.text_field("app_id"@) matches Some(id) && id.len() > 0 ==> sway_class(node)
            == node.text_field("app_id"@)->0,
        !(node.text_field("app_id"@) matches Some(id) && id.len() > 0) ==> {
            &&& node.field("window_properties"@) matches Some(properties) ==> (
            properties.text_field("class"@) matches Some(class) ==> sway_class(node) == class)
            &&& !(node.field("window_properties"@) matches Some(properties)
                && properties.text_field("class"@) is Some) ==> sway_class(node).len() == 0
        },
{
}

/// In a session that is not known all three compositors are asked, Hyprland
/// first and KWin last; in one that is known only its own is, and niri's has
/// none.
pub proof fn law_the_compositors_that_are_asked(session: Session)
    ensures
        ({
            let asked = compositors_asked(session, all_compositors().len() as int);
            &&& session is Unknown ==> asked == seq![
                Compositor::Hyprland,
                Compositor::Sway,
                Compositor::KWin,
            ]
            &&& session is Hyprland ==> asked == seq![Compositor::Hyprland]
            &&& session is Sway ==> asked == seq![Compositor::Sway]
            &&& session is KWin ==> asked == seq![Compositor::KWin]
            &&& session is Niri ==> asked.len() == 0
        }),
{
    reveal_with_fuel(compositors_asked, 4);
}

/// What is found comes from the first compositor that has it: the ones asked
/// before said nothing, and the window carries its own compositor's mark.
pub proof fn law_the_first_window_that_is_named_is_the_active_one(
    session: Session,
    replies: Seq<Reply>,
    window: core::result::Result<ActiveWindow, VshotError>,
)
    requires
        found_active(session, replies, window),
    ensures
        window matches Ok(found) ==> match found.source {
            WindowSource::Hyprland => hyprland_active_reply(
                replies.last()->Ok_0.stdout@,
            ) == Ok::<Rect, Seq<char>>(found.geometry),
            WindowSource::Sway => sway_active_reply(replies.last()->Ok_0.stdout@) == Ok::<
                Rect,
                Seq<char>,
            >(found.geometry),
            WindowSource::KWin => kwin_active_reply(replies.last()->Ok_0.stdout@) == Ok::<
                Rect,
                Seq<char>,
            >(found.geometry),
            _ => false,
        },
        window is Ok ==> replies.last() is Ok && replies.last()->Ok_0.success,
{
}

/// What a compositor printed counts only if the query ended well.
pub proof fn law_a_failed_query_says_nothing(
    compositor: Compositor,
    program: Seq<char>,
    output: CommandOutput,
)
    ensures
        !output.success ==> compositor.judged_active(output) is Err && queried(program, output)
            is Err,
        output.success ==> queried(program, output) == Ok::<Seq<u8>, Seq<char>>(output.stdout@),
        output.success ==> compositor.judged_active(output) == match compositor {
            Compositor::Hyprland => hyprland_active_reply(output.stdout@),
            Compositor::Sway => sway_active_reply(output.stdout@),
            Compositor::KWin => kwin_active_reply(output.stdout@),
        },
{
}

/// Each compositor is asked through its own program, and for the active window
/// or for all of them as that program has it.
pub proof fn law_each_compositor_is_asked_in_its_own_words()
    ensures
        Compositor::Hyprland.active_question() == ("hyprctl"@, seq!["activewindow"@, "-j"@]),
        Compositor::Hyprland.list_question() == ("hyprctl"@, seq!["clients"@, "-j"@]),
        Compositor::Sway.active_question() == ("swaymsg"@, seq!["-t"@, "get_tree"@]),
        Compositor::Sway.list_question() == Compositor::Sway.active_question(),
        Compositor::KWin.active_question().0 == Compositor::KWin.list_question().0,
        Compositor::KWin.active_question().1.len() == 4,
        Compositor::KWin.active_question().1[3] == "active"@,
        Compositor::KWin.list_question().1 == Compositor::KWin.active_question().1.update(
            3,
            "list"@,
        ),
{
    assert(Compositor::KWin.list_question().1 =~= Compositor::KWin.active_question().1.update(
        3,
        "list"@,
    ));
}

/// Where nobody knows the active window or lists any, what is reported ends the
/// sentence with what each compositor that was asked said; where nobody was
/// asked, it says nothing of answers.
pub proof fn law_every_answer_is_reported(reasons: Seq<Seq<char>>)
    ensures
        reasons.len() > 0 ==> no_active_text(reasons)
            == "no compositor reported an active window ("@ + joined(
            reasons,
            "; "@,
            reasons.len() as int,
        ) + ")"@,
        reasons.len() > 0 ==> no_windows_text(reasons)
            == "no compositor reported a window list ("@ + joined(
            reasons,
            "; "@,
            reasons.len() as int,
        ) + ")"@,
{
}

} // verus!
