//! Which window is meant, and which buffers it is copied into.

use vstd::prelude::*;

use crate::error::{settles, ErrorView, Result, VshotError};
use crate::text::{
    all_ascii, all_space, ascii_lower, ascii_uppered, concat2, contains_text, decimal_text,
    eq_ignore_ascii_case, format_hex, format_u64, has_part, hex_text, join, joined,
    lemma_case_of_trimmed, lemma_trimmed_of_padded, lowered, occurs_at, same_ignoring_case,
    same_text, texts, to_lowercase, trim, trimmed,
};

use super::dmabuf::{DRM_FORMAT_ARGB8888, DRM_FORMAT_XRGB8888};
use super::window::{join_label, label_of};

verus! {

/// A window's own labels.  Both may be empty, and the identifier is the
/// compositor's stable way of pointing at the same window twice.
#[derive(Clone, Debug, Default, PartialEq, Eq)]
pub struct Name {
    pub app_id: String,
    pub title: String,
    pub identifier: String,
}

pub const NO_LABEL: &'static str = "(the compositor reports no app id or title)";

impl Name {
    /// `class — title`, the way a compositor's own window list names a window.
    pub fn label(&self) -> (label: String)
        ensures
            label@ == label_of(self.app_id@, self.title@),
    {
        join_label(self.app_id.as_str(), self.title.as_str())
    }

    /// What the window is called: its label, or a stand-in when it has none.
    pub open spec fn called(self) -> Seq<char> {
        let label = label_of(self.app_id@, self.title@);
        if label.len() == 0 {
            NO_LABEL@
        } else {
            label
        }
    }

    /// The label, or a stand-in when the compositor reported neither.
    pub fn describe(&self) -> (text: String)
        ensures
            text@ == self.called(),
    {
        let label = self.label();
        if label.as_str().is_empty() {
            NO_LABEL.to_owned()
        } else {
            label
        }
    }
}

// ---------------------------------------------------------------------------
// Choosing a window
// ---------------------------------------------------------------------------
/// The positions of the first `n` flags that are set, in order.
pub open spec fn set_positions(flags: Seq<bool>, n: int) -> Seq<int>
    decreases n,
{
    if n <= 0 {
        Seq::empty()
    } else if flags[n - 1] {
        set_positions(flags, n - 1).push(n - 1)
    } else {
        set_positions(flags, n - 1)
    }
}

/// Positions as mathematical numbers.
pub open spec fn as_ints(list: Seq<usize>) -> Seq<int> {
    Seq::new(list.len(), |i: int| list[i] as int)
}

fn positions(flags: &Vec<bool>) -> (list: Vec<usize>)
    ensures
        as_ints(list@) == set_positions(flags@, flags@.len() as int),
        forall|i: int| 0 <= i < list@.len() ==> (#[trigger] list@[i]) < flags@.len(),
{
    let mut list: Vec<usize> = Vec::new();
    let mut i: usize = 0;
    assert(as_ints(list@) =~= Seq::<int>::empty());
    while i < flags.len()
        invariant
            i <= flags@.len(),
            as_ints(list@) == set_positions(flags@, i as int),
            forall|j: int| 0 <= j < list@.len() ==> (#[trigger] list@[j]) < flags@.len(),
        decreases flags.len() - i,
    {
        if flags[i] {
            let ghost before = list@;
            list.push(i);
            assert(as_ints(list@) =~= as_ints(before).push(i as int));
        }
        i = i + 1;
    }
    list
}

/// The first `n` windows as lines, for an error that has to name what it saw.
pub open spec fn lines_of(names: Seq<&Name>, n: int) -> Seq<char>
    decreases n,
{
    if n <= 0 {
        Seq::empty()
    } else {
        lines_of(names, n - 1) + ("\n    "@ + names[n - 1].called())
    }
}

/// The windows as lines, or that there are none.
pub open spec fn listing(names: Seq<&Name>) -> Seq<char> {
    if names.len() == 0 {
        " no windows at all"@
    } else {
        lines_of(names, names.len() as int)
    }
}

/// The windows at these positions.
pub open spec fn names_at(names: Seq<&Name>, positions: Seq<int>) -> Seq<&Name> {
    Seq::new(positions.len(), |i: int| names[positions[i]])
}

fn describe_names(names: &[&Name]) -> (text: String)
    ensures
        text@ == listing(names@),
{
    if names.len() == 0 {
        return " no windows at all".to_owned();
    }
    let mut text = String::new();
    let mut i: usize = 0;
    assert(text@ =~= Seq::<char>::empty());
    while i < names.len()
        invariant
            i <= names@.len(),
            text@ == lines_of(names@, i as int),
        decreases names.len() - i,
    {
        let described = names[i].describe();
        let line = concat2("\n    ", described.as_str());
        text.append(line.as_str());
        i = i + 1;
    }
    text
}

fn pick_names<'a>(names: &[&'a Name], list: &Vec<usize>) -> (picked: Vec<&'a Name>)
    requires
        forall|i: int| 0 <= i < list@.len() ==> (#[trigger] list@[i]) < names@.len(),
    ensures
        picked@ == names_at(names@, as_ints(list@)),
{
    let mut picked: Vec<&'a Name> = Vec::new();
    while picked.len() < list.len()
        invariant
            forall|i: int| 0 <= i < list@.len() ==> (#[trigger] list@[i]) < names@.len(),
            picked@.len() <= list@.len(),
            forall|i: int|
                0 <= i < picked@.len() ==> #[trigger] picked@[i] == names@[list@[i] as int],
        decreases list.len() - picked.len(),
    {
        let at: usize = list[picked.len()];
        picked.push(names[at]);
    }
    assert(picked@ =~= names_at(names@, as_ints(list@)));
    picked
}

/// The one window among several candidates: `nothing` is what is said when
/// there is none, and `several` what several are introduced with.
pub open spec fn only_one(
    names: Seq<&Name>,
    matching: Seq<int>,
    nothing: Seq<char>,
    subject: Seq<char>,
) -> core::result::Result<usize, ErrorView> {
    if matching.len() == 1 {
        Ok(matching[0] as usize)
    } else if matching.len() == 0 {
        Err(ErrorView::Recording(nothing + listing(names)))
    } else {
        Err(
            ErrorView::Recording(
                "`"@ + subject + "` matches "@ + decimal_text(matching.len() as int) + " windows:"@
                    + listing(names_at(names, matching)),
            ),
        )
    }
}

fn choose_one(names: &[&Name], matching: &Vec<usize>, nothing: &str, subject: &str) -> (index: Result<
    usize,
>)
    requires
        forall|i: int| 0 <= i < matching@.len() ==> (#[trigger] matching@[i]) < names@.len(),
    ensures
        settles(index, only_one(names@, as_ints(matching@), nothing@, subject@)),
{
    if matching.len() == 1 {
        return Ok(matching[0]);
    }
    if matching.len() == 0 {
        let list = describe_names(names);
        return Err(VshotError::Recording(concat2(nothing, list.as_str())));
    }
    let picked = pick_names(names, matching);
    let list = describe_names(picked.as_slice());
    let count = format_u64(matching.len() as u64);
    let mut text = "`".to_owned();
    text.append(subject);
    text.append("` matches ");
    text.append(count.as_str());
    text.append(" windows:");
    text.append(list.as_str());
    Err(VshotError::Recording(text))
}

/// Whether a filter is the whole app id or title of a window.
pub open spec fn is_named(name: Name, filter: Seq<char>) -> bool {
    same_ignoring_case(name.app_id@, filter) || same_ignoring_case(name.title@, filter)
}

/// Whether a filter is part of the app id or title of a window, whatever its
/// case.
pub open spec fn mentions(name: Name, filter: Seq<char>) -> bool {
    has_part(lowered(name.app_id@), lowered(filter)) || has_part(
        lowered(name.title@),
        lowered(filter),
    )
}

pub open spec fn named_flags(names: Seq<&Name>, filter: Seq<char>) -> Seq<bool> {
    Seq::new(names.len(), |i: int| is_named(*names[i], filter))
}

pub open spec fn mention_flags(names: Seq<&Name>, filter: Seq<char>) -> Seq<bool> {
    Seq::new(names.len(), |i: int| mentions(*names[i], filter))
}

/// All positions of set flags.
pub open spec fn set_in(flags: Seq<bool>) -> Seq<int> {
    set_positions(flags, flags.len() as int)
}

/// The windows a filter matches: those it names in whole, and only when there
/// is none those that mention it.
pub open spec fn filtered(names: Seq<&Name>, filter: Seq<char>) -> Seq<int> {
    let exact = set_in(named_flags(names, filter));
    if exact.len() > 0 {
        exact
    } else {
        set_in(mention_flags(names, filter))
    }
}

/// The window a filter names.
pub open spec fn selected(names: Seq<&Name>, filter: Seq<char>) -> core::result::Result<
    usize,
    ErrorView,
> {
    let filter = trimmed(filter);
    if filter.len() == 0 {
        Err(ErrorView::Recording(EMPTY_FILTER@))
    } else {
        only_one(
            names,
            filtered(names, filter),
            "no window matches `"@ + filter + "`; the compositor lists"@,
            filter,
        )
    }
}

pub const EMPTY_FILTER: &'static str =
    "the window filter is empty: give an app id or a title, or use `--pick`";

fn flag_named(names: &[&Name], filter: &str) -> (flags: Vec<bool>)
    ensures
        flags@ == named_flags(names@, filter@),
{
    let mut flags: Vec<bool> = Vec::new();
    while flags.len() < names.len()
        invariant
            flags@.len() <= names@.len(),
            forall|i: int|
                0 <= i < flags@.len() ==> #[trigger] flags@[i] == is_named(*names@[i], filter@),
        decreases names.len() - flags.len(),
    {
        let name = names[flags.len()];
        flags.push(
            eq_ignore_ascii_case(name.app_id.as_str(), filter) || eq_ignore_ascii_case(
                name.title.as_str(),
                filter,
            ),
        );
    }
    assert(flags@ =~= named_flags(names@, filter@));
    flags
}

fn flag_mentions(names: &[&Name], filter: &str) -> (flags: Vec<bool>)
    ensures
        flags@ == mention_flags(names@, filter@),
{
    let small = to_lowercase(filter);
    let mut flags: Vec<bool> = Vec::new();
    while flags.len() < names.len()
        invariant
            small@ == lowered(filter@),
            flags@.len() <= names@.len(),
            forall|i: int|
                0 <= i < flags@.len() ==> #[trigger] flags@[i] == mentions(*names@[i], filter@),
        decreases names.len() - flags.len(),
    {
        let name = names[flags.len()];
        let (app_id, title) = (
            to_lowercase(name.app_id.as_str()),
            to_lowercase(name.title.as_str()),
        );
        flags.push(
            contains_text(app_id.as_str(), small.as_str()) || contains_text(
                title.as_str(),
                small.as_str(),
            ),
        );
    }
    assert(flags@ =~= mention_flags(names@, filter@));
    flags
}

/// The window a filter names, as an index into `names`.
///
/// A whole app id or title wins; otherwise the filter is a part of either,
/// whatever its case.  Several matches are an error that lists them: recording
/// a window the user did not mean is worse than asking again.
pub fn select(names: &[&Name], filter: &str) -> (index: Result<usize>)
    ensures
        settles(index, selected(names@, filter@)),
{
    let filter = trim(filter);
    if filter.as_str().is_empty() {
        return Err(VshotError::Recording(EMPTY_FILTER.to_owned()));
    }
    let flags = flag_named(names, filter.as_str());
    let mut matching = positions(&flags);
    if matching.len() == 0 {
        let flags = flag_mentions(names, filter.as_str());
        matching = positions(&flags);
    }
    let mut nothing = "no window matches `".to_owned();
    nothing.append(filter.as_str());
    nothing.append("`; the compositor lists");
    choose_one(names, &matching, nothing.as_str(), filter.as_str())
}

// ---------------------------------------------------------------------------
// Matching a window from another list
// ---------------------------------------------------------------------------
/// Whether a label is there and is the window's.
pub open spec fn has_label(own: Seq<char>, label: Seq<char>) -> bool {
    label.len() > 0 && own == label
}

pub open spec fn both_flags(names: Seq<&Name>, app_id: Seq<char>, title: Seq<char>) -> Seq<bool> {
    Seq::new(
        names.len(),
        |i: int| has_label(names[i].app_id@, app_id) && has_label(names[i].title@, title),
    )
}

pub open spec fn title_flags(names: Seq<&Name>, title: Seq<char>) -> Seq<bool> {
    Seq::new(names.len(), |i: int| has_label(names[i].title@, title))
}

pub open spec fn app_flags(names: Seq<&Name>, app_id: Seq<char>) -> Seq<bool> {
    Seq::new(names.len(), |i: int| has_label(names[i].app_id@, app_id))
}

/// The windows a description matches: those with both labels, else those with
/// the title, else those with the app id.
pub open spec fn described(names: Seq<&Name>, app_id: Seq<char>, title: Seq<char>) -> Seq<int> {
    let both = set_in(both_flags(names, app_id, title));
    let titled = set_in(title_flags(names, title));
    if both.len() > 0 {
        both
    } else if titled.len() > 0 {
        titled
    } else {
        set_in(app_flags(names, app_id))
    }
}

pub const DESCRIBED_DIFFERENTLY: &'static str =
    "`) is not in the foreign-toplevel list, which means this compositor describes its windows differently; it lists";

/// A description as it is quoted.
pub open spec fn quoted(app_id: Seq<char>, title: Seq<char>) -> Seq<char> {
    app_id + " — "@ + title
}

/// The window a description matches.
pub open spec fn matched(names: Seq<&Name>, app_id: Seq<char>, title: Seq<char>) -> core::result::Result<
    usize,
    ErrorView,
> {
    let (app_id, title) = (trimmed(app_id), trimmed(title));
    only_one(
        names,
        described(names, app_id, title),
        "the window the compositor points at (`"@ + quoted(app_id, title) + DESCRIBED_DIFFERENTLY@,
        quoted(app_id, title),
    )
}

fn flag_labels(names: &[&Name], app_id: &str, title: &str, by_app: bool, by_title: bool) -> (flags:
    Vec<bool>)
    requires
        by_app || by_title,
    ensures
        by_app && by_title ==> flags@ == both_flags(names@, app_id@, title@),
        !by_app ==> flags@ == title_flags(names@, title@),
        !by_title ==> flags@ == app_flags(names@, app_id@),
{
    let mut flags: Vec<bool> = Vec::new();
    while flags.len() < names.len()
        invariant
            flags@.len() <= names@.len(),
            forall|i: int|
                0 <= i < flags@.len() ==> #[trigger] flags@[i] == ((!by_app || has_label(
                    names@[i].app_id@,
                    app_id@,
                )) && (!by_title || has_label(names@[i].title@, title@))),
        decreases names.len() - flags.len(),
    {
        let name = names[flags.len()];
        let app_fits = !by_app || (!app_id.is_empty() && same_text(name.app_id.as_str(), app_id));
        let title_fits = !by_title || (!title.is_empty() && same_text(name.title.as_str(), title));
        flags.push(app_fits && title_fits);
    }
    assert(by_app && by_title ==> flags@ =~= both_flags(names@, app_id@, title@));
    assert(!by_app ==> flags@ =~= title_flags(names@, title@));
    assert(!by_title ==> flags@ =~= app_flags(names@, app_id@));
    flags
}

/// The window a compositor's own window list pointed at, as an index into
/// `names`: matched on both labels, then on the title, then on the app id, and
/// only where the answer is unambiguous.
pub fn match_description(names: &[&Name], app_id: &str, title: &str) -> (index: Result<usize>)
    ensures
        settles(index, matched(names@, app_id@, title@)),
{
    let (app_id, title) = (trim(app_id), trim(title));
    let flags = flag_labels(names, app_id.as_str(), title.as_str(), true, true);
    let mut matching = positions(&flags);
    if matching.len() == 0 {
        let flags = flag_labels(names, app_id.as_str(), title.as_str(), false, true);
        matching = positions(&flags);
    }
    if matching.len() == 0 {
        let flags = flag_labels(names, app_id.as_str(), title.as_str(), true, false);
        matching = positions(&flags);
    }
    let mut subject = app_id;
    subject.append(" — ");
    subject.append(title.as_str());
    let mut nothing = "the window the compositor points at (`".to_owned();
    nothing.append(subject.as_str());
    nothing.append(DESCRIBED_DIFFERENTLY);
    choose_one(names, &matching, nothing.as_str(), subject.as_str())
}

// ---------------------------------------------------------------------------
// Laws of choosing
// ---------------------------------------------------------------------------
proof fn lemma_set_positions(flags: Seq<bool>, n: int)
    requires
        0 <= n <= flags.len(),
    ensures
        forall|k: int|
            0 <= k < set_positions(flags, n).len() ==> 0 <= #[trigger] set_positions(flags, n)[k] < n
                && flags[set_positions(flags, n)[k]],
        forall|i: int| #![trigger flags[i]]
            0 <= i < n && flags[i] ==> exists|k: int|
                0 <= k < set_positions(flags, n).len() && #[trigger] set_positions(flags, n)[k]
                    == i,
    decreases n,
{
    if n > 0 {
        lemma_set_positions(flags, n - 1);
        let before = set_positions(flags, n - 1);
        let now = set_positions(flags, n);
        assert forall|i: int| #![trigger flags[i]] 0 <= i < n && flags[i] implies exists|k: int|
            0 <= k < now.len() && #[trigger] now[k] == i by {
            if i < n - 1 {
                let k = choose|k: int| 0 <= k < before.len() && #[trigger] before[k] == i;
                assert(now[k] == i);
            } else {
                assert(now[now.len() - 1] == i);
            }
        }
    }
}

/// A window that was selected is the only one its filter matches: it is the
/// only one the filter names in whole, or no window is named in whole and it
/// is the only one that mentions it.
pub proof fn law_a_selection_is_never_a_guess(
    names: Seq<&Name>,
    filter: Seq<char>,
    index: usize,
    other: int,
)
    requires
        selected(names, filter) == Ok::<usize, ErrorView>(index),
        names.len() <= usize::MAX,
        0 <= other < names.len(),
    ensures
        0 <= index < names.len(),
        is_named(*names[index as int], trimmed(filter)) || mentions(
            *names[index as int],
            trimmed(filter),
        ),
        is_named(*names[other], trimmed(filter)) ==> other == index,
        !is_named(*names[index as int], trimmed(filter)) && mentions(
            *names[other],
            trimmed(filter),
        ) ==> other == index,
{
    let wanted = trimmed(filter);
    let exact = named_flags(names, wanted);
    let loose = mention_flags(names, wanted);
    lemma_set_positions(exact, exact.len() as int);
    lemma_set_positions(loose, loose.len() as int);
    assert(exact[other] == is_named(*names[other], wanted));
    assert(loose[other] == mentions(*names[other], wanted));
    let found = filtered(names, wanted);
    assert(found.len() == 1);
    assert(0 <= found[0] < names.len());
    assert(exact[found[0]] == is_named(*names[found[0]], wanted));
    assert(loose[found[0]] == mentions(*names[found[0]], wanted));
}

/// A whole name beats a part of another: when a filter names exactly one
/// window, that window is selected whatever the others mention.
pub proof fn law_a_whole_name_beats_a_part(names: Seq<&Name>, filter: Seq<char>, index: int)
    requires
        trimmed(filter).len() > 0,
        names.len() <= usize::MAX,
        0 <= index < names.len(),
        forall|i: int|
            0 <= i < names.len() ==> (#[trigger] is_named(*names[i], trimmed(filter)) <==> i
                == index),
    ensures
        selected(names, filter) == Ok::<usize, ErrorView>(index as usize),
{
    let wanted = trimmed(filter);
    let exact = named_flags(names, wanted);
    lemma_set_positions(exact, exact.len() as int);
    assert(is_named(*names[index], wanted));
    assert(exact[index]);
    lemma_single_position(exact, exact.len() as int, index);
}

proof fn lemma_single_position(flags: Seq<bool>, n: int, index: int)
    requires
        0 <= n <= flags.len(),
        0 <= index < flags.len(),
        forall|i: int| 0 <= i < flags.len() ==> (#[trigger] flags[i] <==> i == index),
    ensures
        set_positions(flags, n) == if index < n {
            seq![index]
        } else {
            Seq::empty()
        },
    decreases n,
{
    if n > 0 {
        lemma_single_position(flags, n - 1, index);
        assert(flags[n - 1] <==> n - 1 == index);
        assert(set_positions(flags, n) =~= if index < n {
            seq![index]
        } else {
            Seq::empty()
        });
    }
}

/// White space before and behind a filter changes nothing.
pub proof fn law_space_around_a_filter_changes_nothing(
    names: Seq<&Name>,
    before: Seq<char>,
    filter: Seq<char>,
    after: Seq<char>,
)
    requires
        all_space(before),
        all_space(after),
    ensures
        selected(names, before + filter + after) == selected(names, filter),
{
    lemma_trimmed_of_padded(before, filter, after);
}

/// The case of an ASCII filter does not change which windows it matches: of two
/// that are the same but for their case, both select the same window or neither
/// selects one.
pub proof fn law_the_case_of_a_filter_changes_no_choice(
    names: Seq<&Name>,
    a: Seq<char>,
    b: Seq<char>,
)
    requires
        all_ascii(a),
        same_ignoring_case(a, b),
    ensures
        filtered(names, trimmed(a)) == filtered(names, trimmed(b)),
        match selected(names, a) {
            Ok(index) => selected(names, b) == Ok::<usize, ErrorView>(index),
            Err(_) => selected(names, b) is Err,
        },
{
    lemma_case_of_trimmed(a, b);
    let (a, b) = (trimmed(a), trimmed(b));
    assert forall|i: int| 0 <= i < names.len() implies is_named(*names[i], a) == is_named(
        *names[i],
        b,
    ) by {
        lemma_same_but_for_case(names[i].app_id@, a, b);
        lemma_same_but_for_case(names[i].title@, a, b);
    }
    assert(named_flags(names, a) =~= named_flags(names, b));
    assert(mention_flags(names, a) =~= mention_flags(names, b));
}

/// Neither white space around an ASCII filter nor capitals change the choice:
/// the filter, the filter with white space around it and the filter in capitals
/// all select the same window, or none of them selects one.
pub proof fn law_neither_space_nor_capitals_change_the_choice(
    names: Seq<&Name>,
    before: Seq<char>,
    filter: Seq<char>,
    after: Seq<char>,
)
    requires
        all_ascii(filter),
        all_space(before),
        all_space(after),
    ensures
        match selected(names, filter) {
            Ok(index) => {
                &&& selected(names, before + filter + after) == Ok::<usize, ErrorView>(index)
                &&& selected(names, ascii_uppered(filter)) == Ok::<usize, ErrorView>(index)
            },
            Err(_) => {
                &&& selected(names, before + filter + after) is Err
                &&& selected(names, ascii_uppered(filter)) is Err
            },
        },
{
    law_space_around_a_filter_changes_nothing(names, before, filter, after);
    law_the_case_of_a_filter_changes_no_choice(names, filter, ascii_uppered(filter));
}

proof fn lemma_same_but_for_case(text: Seq<char>, a: Seq<char>, b: Seq<char>)
    requires
        same_ignoring_case(a, b),
    ensures
        same_ignoring_case(text, a) == same_ignoring_case(text, b),
{
    if same_ignoring_case(text, a) {
        assert forall|i: int| 0 <= i < text.len() implies ascii_lower(#[trigger] text[i])
            == ascii_lower(b[i]) by {
            assert(ascii_lower(a[i]) == ascii_lower(b[i]));
        }
    }
    if same_ignoring_case(text, b) {
        assert forall|i: int| 0 <= i < text.len() implies ascii_lower(#[trigger] text[i])
            == ascii_lower(a[i]) by {
            assert(ascii_lower(a[i]) == ascii_lower(b[i]));
        }
    }
}

// ---------------------------------------------------------------------------
// Buffer formats
// ---------------------------------------------------------------------------
/// The modifier of a plainly laid-out buffer.
pub const DRM_FORMAT_MOD_LINEAR: u64 = 0;

/// The modifier that means that none is stated; no buffer can be built on it.
pub const DRM_FORMAT_MOD_INVALID: u64 = 0x00ff_ffff_ffff_ffff;

/// The modifiers to try: only the plain layout when it is on offer, because an
/// allocator ignores the order of what it is handed; else everything on offer
/// that a buffer can be built on.
pub open spec fn usable_modifiers(offered: Seq<u64>) -> Seq<u64> {
    if offered.contains(DRM_FORMAT_MOD_LINEAR) {
        seq![DRM_FORMAT_MOD_LINEAR]
    } else {
        offered.filter(|modifier: u64| modifier != DRM_FORMAT_MOD_INVALID)
    }
}

/// The modifiers to try, in order.
pub fn order_modifiers(modifiers: &[u64]) -> (usable: Vec<u64>)
    ensures
        usable@ == usable_modifiers(modifiers@),
{
    let ghost stated = |modifier: u64| modifier != DRM_FORMAT_MOD_INVALID;
    let mut usable: Vec<u64> = Vec::new();
    let mut i: usize = 0;
    proof {
        reveal(Seq::filter);
        assert(modifiers@.take(0).filter(stated) =~= Seq::<u64>::empty());
    }
    while i < modifiers.len()
        invariant
            i <= modifiers@.len(),
            stated == (|modifier: u64| modifier != DRM_FORMAT_MOD_INVALID),
            forall|j: int| 0 <= j < i ==> modifiers@[j] != DRM_FORMAT_MOD_LINEAR,
            usable@ == modifiers@.take(i as int).filter(stated),
        decreases modifiers.len() - i,
    {
        let modifier: u64 = modifiers[i];
        if modifier == DRM_FORMAT_MOD_LINEAR {
            assert(modifiers@[i as int] == DRM_FORMAT_MOD_LINEAR);
            let linear = vec![DRM_FORMAT_MOD_LINEAR];
            assert(linear@ =~= seq![DRM_FORMAT_MOD_LINEAR]);
            return linear;
        }
        proof {
            reveal(Seq::filter);
            assert(modifiers@.take(i + 1).drop_last() =~= modifiers@.take(i as int));
        }
        if modifier != DRM_FORMAT_MOD_INVALID {
            usable.push(modifier);
        }
        i = i + 1;
    }
    assert(modifiers@.take(modifiers@.len() as int) =~= modifiers@);
    usable
}

/// Formats as the compositor offers them: a fourcc with its modifiers.
pub open spec fn offers(formats: Seq<(u32, Vec<u64>)>) -> Seq<(u32, Seq<u64>)> {
    Seq::new(formats.len(), |i: int| (formats[i].0, formats[i].1@))
}

/// The modifiers of the first offer of a format from `from` on, when one of
/// them can be used.
pub open spec fn usable_offer(formats: Seq<(u32, Seq<u64>)>, wanted: u32, from: int) -> Option<
    Seq<u64>,
>
    decreases formats.len() - from,
{
    if from < 0 || from >= formats.len() {
        None
    } else if formats[from].0 == wanted {
        let usable = usable_modifiers(formats[from].1);
        if usable.len() > 0 {
            Some(usable)
        } else {
            None
        }
    } else {
        usable_offer(formats, wanted, from + 1)
    }
}

/// The format to allocate a window's buffers in, with its modifiers.  Only two
/// formats can be encoded; the one without alpha comes first, because a
/// recording has none to keep.
pub open spec fn picked_format(formats: Seq<(u32, Seq<u64>)>) -> Option<(u32, Seq<u64>)> {
    match usable_offer(formats, DRM_FORMAT_XRGB8888, 0) {
        Some(usable) => Some((DRM_FORMAT_XRGB8888, usable)),
        None => match usable_offer(formats, DRM_FORMAT_ARGB8888, 0) {
            Some(usable) => Some((DRM_FORMAT_ARGB8888, usable)),
            None => None,
        },
    }
}

fn find_offer(formats: &[(u32, Vec<u64>)], wanted: u32) -> (usable: Option<Vec<u64>>)
    ensures
        match usable {
            Some(usable) => usable_offer(offers(formats@), wanted, 0) == Some(usable@),
            None => usable_offer(offers(formats@), wanted, 0) is None,
        },
{
    let mut i: usize = 0;
    while i < formats.len()
        invariant
            i <= formats@.len(),
            usable_offer(offers(formats@), wanted, 0) == usable_offer(
                offers(formats@),
                wanted,
                i as int,
            ),
        decreases formats.len() - i,
    {
        if formats[i].0 == wanted {
            let usable = order_modifiers(formats[i].1.as_slice());
            assert(offers(formats@)[i as int].1 == formats@[i as int].1@);
            return if usable.len() > 0 {
                Some(usable)
            } else {
                None
            };
        }
        i = i + 1;
    }
    None
}

/// The format to allocate a window's buffers in, with its modifiers.
pub fn pick_format(formats: &[(u32, Vec<u64>)]) -> (picked: Option<(u32, Vec<u64>)>)
    ensures
        match picked {
            Some((fourcc, modifiers)) => picked_format(offers(formats@)) == Some(
                (fourcc, modifiers@),
            ),
            None => picked_format(offers(formats@)) is None,
        },
{
    if let Some(usable) = find_offer(formats, DRM_FORMAT_XRGB8888) {
        return Some((DRM_FORMAT_XRGB8888, usable));
    }
    if let Some(usable) = find_offer(formats, DRM_FORMAT_ARGB8888) {
        return Some((DRM_FORMAT_ARGB8888, usable));
    }
    None
}

/// One offer, for an error that has to say what it saw.
pub open spec fn offer_text(offer: (u32, Seq<u64>)) -> Seq<char> {
    "0x"@ + hex_text(offer.0 as nat, 8) + " ("@ + decimal_text(offer.1.len() as int)
        + " modifier(s))"@
}

/// What the compositor offered, in words.
pub open spec fn offers_text(formats: Seq<(u32, Seq<u64>)>) -> Seq<char> {
    if formats.len() == 0 {
        "no dma-buf format at all"@
    } else {
        joined(
            Seq::new(formats.len(), |i: int| offer_text(formats[i])),
            ", "@,
            formats.len() as int,
        )
    }
}

/// What the compositor offered, in words.
pub fn describe_formats(formats: &[(u32, Vec<u64>)]) -> (text: String)
    ensures
        text@ == offers_text(offers(formats@)),
{
    if formats.len() == 0 {
        return "no dma-buf format at all".to_owned();
    }
    let mut parts: Vec<String> = Vec::new();
    while parts.len() < formats.len()
        invariant
            parts@.len() <= formats@.len(),
            forall|i: int|
                0 <= i < parts@.len() ==> (#[trigger] parts@[i])@ == offer_text(
                    offers(formats@)[i],
                ),
        decreases formats.len() - parts.len(),
    {
        let (fourcc, count) = (
            formats[parts.len()].0,
            format_u64(formats[parts.len()].1.len() as u64),
        );
        let digits = format_hex(fourcc as u64, 8);
        let mut text = "0x".to_owned();
        text.append(digits.as_str());
        text.append(" (");
        text.append(count.as_str());
        text.append(" modifier(s))");
        parts.push(text);
    }
    assert(texts(parts@) =~= Seq::new(
        offers(formats@).len(),
        |i: int| offer_text(offers(formats@)[i]),
    ));
    join(&parts, ", ")
}

// ---------------------------------------------------------------------------
// Modifiers on the wire
// ---------------------------------------------------------------------------
/// The 64-bit value of eight bytes, in either byte order.
pub open spec fn word_at(bytes: Seq<u8>, start: int, little: bool) -> u64 {
    if little {
        (bytes[start] + 0x100 * bytes[start + 1] + 0x1_0000 * bytes[start + 2] + 0x100_0000
            * bytes[start + 3] + 0x1_0000_0000 * bytes[start + 4] + 0x100_0000_0000 * bytes[start
            + 5] + 0x1_0000_0000_0000 * bytes[start + 6] + 0x100_0000_0000_0000 * bytes[start
            + 7]) as u64
    } else {
        (bytes[start + 7] + 0x100 * bytes[start + 6] + 0x1_0000 * bytes[start + 5] + 0x100_0000
            * bytes[start + 4] + 0x1_0000_0000 * bytes[start + 3] + 0x100_0000_0000 * bytes[start
            + 2] + 0x1_0000_0000_0000 * bytes[start + 1] + 0x100_0000_0000_0000
            * bytes[start]) as u64
    }
}

/// The 64-bit values an array of bytes holds; what is left over is dropped.
pub open spec fn words_in(bytes: Seq<u8>, little: bool) -> Seq<u64> {
    Seq::new((bytes.len() / 8) as nat, |i: int| word_at(bytes, 8 * i, little))
}

/// The 64-bit values an array of bytes holds in a byte order.
pub fn modifiers_in(bytes: &[u8], little: bool) -> (modifiers: Vec<u64>)
    ensures
        modifiers@ == words_in(bytes@, little),
{
    let length: usize = bytes.len();
    let count: usize = length / 8;
    let mut modifiers: Vec<u64> = Vec::new();
    while modifiers.len() < count
        invariant
            length == bytes@.len(),
            count == length / 8,
            modifiers@.len() <= count,
            forall|i: int|
                0 <= i < modifiers@.len() ==> #[trigger] modifiers@[i] == word_at(
                    bytes@,
                    8 * i,
                    little,
                ),
        decreases count - modifiers.len(),
    {
        let start: usize = 8 * modifiers.len();
        let value: u64 = if little {
            bytes[start] as u64 + 0x100 * bytes[start + 1] as u64 + 0x1_0000 * bytes[start
                + 2] as u64 + 0x100_0000 * bytes[start + 3] as u64 + 0x1_0000_0000 * bytes[start
                + 4] as u64 + 0x100_0000_0000 * bytes[start + 5] as u64 + 0x1_0000_0000_0000
                * bytes[start + 6] as u64 + 0x100_0000_0000_0000 * bytes[start + 7] as u64
        } else {
            bytes[start + 7] as u64 + 0x100 * bytes[start + 6] as u64 + 0x1_0000 * bytes[start
                + 5] as u64 + 0x100_0000 * bytes[start + 4] as u64 + 0x1_0000_0000 * bytes[start
                + 3] as u64 + 0x100_0000_0000 * bytes[start + 2] as u64 + 0x1_0000_0000_0000
                * bytes[start + 1] as u64 + 0x100_0000_0000_0000 * bytes[start] as u64
        };
        modifiers.push(value);
    }
    assert(modifiers@ =~= words_in(bytes@, little));
    modifiers
}

/// Calls `u16::from_ne_bytes` on the bytes one and zero: one where the machine
/// puts the low byte first, and 256 where it puts the high byte first.
#[verifier::external_body]
fn native_order_mark() -> (mark: u16)
    ensures
        mark == 1 || mark == 256,
{
    u16::from_ne_bytes([1, 0])
}

/// The modifiers an array of the protocol holds: 64-bit values in the byte
/// order of the machine.
///
/// Which of the two orders that is depends on the machine, so it is not stated.
pub fn modifiers_from_bytes(bytes: &[u8]) -> (modifiers: Vec<u64>)
    ensures
        exists|little: bool| modifiers@ == #[trigger] words_in(bytes@, little),
{
    let little = native_order_mark() == 1;
    modifiers_in(bytes, little)
}

// ---------------------------------------------------------------------------
// Laws of formats
// ---------------------------------------------------------------------------
/// What is picked was offered: the format is one that can be encoded, and each
/// modifier is one the compositor listed for it and a buffer can be built on.
pub proof fn law_what_is_picked_was_offered(formats: Seq<(u32, Seq<u64>)>, k: int)
    requires
        picked_format(formats) matches Some((fourcc, modifiers)) && 0 <= k < modifiers.len(),
    ensures
        picked_format(formats) matches Some((fourcc, modifiers)) && {
            &&& fourcc == DRM_FORMAT_XRGB8888 || fourcc == DRM_FORMAT_ARGB8888
            &&& modifiers[k] != DRM_FORMAT_MOD_INVALID
            &&& exists|i: int|
                0 <= i < formats.len() && (#[trigger] formats[i]).0 == fourcc
                    && formats[i].1.contains(modifiers[k])
        },
{
    let (fourcc, modifiers) = picked_format(formats)->Some_0;
    lemma_usable_offer(formats, fourcc, 0, k);
}

proof fn lemma_usable_offer(formats: Seq<(u32, Seq<u64>)>, wanted: u32, from: int, k: int)
    requires
        0 <= from,
        usable_offer(formats, wanted, from) matches Some(usable) && 0 <= k < usable.len(),
    ensures
        usable_offer(formats, wanted, from) matches Some(usable) && {
            &&& usable[k] != DRM_FORMAT_MOD_INVALID
            &&& exists|i: int|
                0 <= i < formats.len() && (#[trigger] formats[i]).0 == wanted
                    && formats[i].1.contains(usable[k])
        },
    decreases formats.len() - from,
{
    if formats[from].0 == wanted {
        let offered = formats[from].1;
        let stated = |modifier: u64| modifier != DRM_FORMAT_MOD_INVALID;
        let usable = usable_modifiers(offered);
        if !offered.contains(DRM_FORMAT_MOD_LINEAR) {
            lemma_filter_subset(offered, stated, k);
        }
        assert(formats[from].1.contains(usable[k]));
    } else {
        lemma_usable_offer(formats, wanted, from + 1, k);
    }
}

proof fn lemma_filter_subset(list: Seq<u64>, pred: spec_fn(u64) -> bool, k: int)
    requires
        0 <= k < list.filter(pred).len(),
    ensures
        pred(list.filter(pred)[k]),
        list.contains(list.filter(pred)[k]),
    decreases list.len(),
{
    reveal(Seq::filter);
    if list.len() > 0 {
        let rest = list.drop_last();
        if k < rest.filter(pred).len() {
            lemma_filter_subset(rest, pred, k);
            let i = choose|i: int| 0 <= i < rest.len() && rest[i] == rest.filter(pred)[k];
            assert(list[i] == rest[i]);
        } else {
            assert(list[list.len() - 1] == list.filter(pred)[k]);
        }
    }
}

/// The plain layout is the only one that is tried when it is on offer.
pub proof fn law_the_plain_layout_is_tried_alone(offered: Seq<u64>)
    requires
        offered.contains(DRM_FORMAT_MOD_LINEAR),
    ensures
        usable_modifiers(offered) == seq![DRM_FORMAT_MOD_LINEAR],
{
}

/// The two formats are known by the four letters of their numbers.
pub proof fn law_the_formats_are_their_letters()
    ensures
        DRM_FORMAT_XRGB8888 == 'X' as u32 + 0x100 * ('R' as u32) + 0x1_0000 * ('2' as u32)
            + 0x100_0000 * ('4' as u32),
        DRM_FORMAT_ARGB8888 == 'A' as u32 + 0x100 * ('R' as u32) + 0x1_0000 * ('2' as u32)
            + 0x100_0000 * ('4' as u32),
        DRM_FORMAT_MOD_LINEAR == 0,
        DRM_FORMAT_MOD_INVALID == 0xff_ffff_ffff_ffff,
{
}

/// Without the plain layout every modifier that is offered and states one can be
/// used, and no other can.
pub proof fn law_every_stated_modifier_can_be_used(offered: Seq<u64>, modifier: u64)
    requires
        !offered.contains(0),
    ensures
        usable_modifiers(offered).contains(modifier) <==> offered.contains(modifier) && modifier
            != 0xff_ffff_ffff_ffff,
{
    let stated = |m: u64| m != DRM_FORMAT_MOD_INVALID;
    let usable = offered.filter(stated);
    if usable.contains(modifier) {
        let k = choose|k: int| 0 <= k < usable.len() && usable[k] == modifier;
        lemma_filter_subset(offered, stated, k);
    }
    if offered.contains(modifier) && modifier != DRM_FORMAT_MOD_INVALID {
        lemma_filter_keeps(offered, stated, modifier);
    }
}

proof fn lemma_filter_keeps(list: Seq<u64>, pred: spec_fn(u64) -> bool, value: u64)
    requires
        list.contains(value),
        pred(value),
    ensures
        list.filter(pred).contains(value),
    decreases list.len(),
{
    reveal(Seq::filter);
    let rest = list.drop_last();
    if list.last() == value {
        let kept = list.filter(pred);
        assert(kept[kept.len() - 1] == value);
    } else {
        let i = choose|i: int| 0 <= i < list.len() && list[i] == value;
        assert(rest[i] == value);
        lemma_filter_keeps(rest, pred, value);
        let k = choose|k: int| 0 <= k < rest.filter(pred).len() && rest.filter(pred)[k] == value;
        assert(list.filter(pred)[k] == value);
    }
}

/// The format without alpha is picked wherever its first offer can be used, the
/// one with alpha only where it cannot, and none only where neither can.
pub proof fn law_the_format_without_alpha_comes_first(
    formats: Seq<(u32, Seq<u64>)>,
    opaque: int,
    clear: int,
)
    requires
        forall|i: int|
            0 <= i < opaque && i < formats.len() ==> (#[trigger] formats[i]).0
                != DRM_FORMAT_XRGB8888,
        forall|i: int|
            0 <= i < clear && i < formats.len() ==> (#[trigger] formats[i]).0
                != DRM_FORMAT_ARGB8888,
        0 <= opaque < formats.len() ==> formats[opaque].0 == DRM_FORMAT_XRGB8888,
        0 <= clear < formats.len() ==> formats[clear].0 == DRM_FORMAT_ARGB8888,
        0 <= opaque,
        0 <= clear,
    ensures
        ({
            let first = opaque < formats.len() && usable_modifiers(formats[opaque].1).len() > 0;
            let second = clear < formats.len() && usable_modifiers(formats[clear].1).len() > 0;
            &&& first ==> picked_format(formats) == Some(
                (DRM_FORMAT_XRGB8888, usable_modifiers(formats[opaque].1)),
            )
            &&& !first && second ==> picked_format(formats) == Some(
                (DRM_FORMAT_ARGB8888, usable_modifiers(formats[clear].1)),
            )
            &&& !first && !second ==> picked_format(formats) is None
        }),
{
    lemma_first_offer(formats, DRM_FORMAT_XRGB8888, 0, opaque);
    lemma_first_offer(formats, DRM_FORMAT_ARGB8888, 0, clear);
}

proof fn lemma_first_offer(formats: Seq<(u32, Seq<u64>)>, wanted: u32, from: int, at: int)
    requires
        0 <= from <= at,
        forall|i: int| from <= i < at && i < formats.len() ==> (#[trigger] formats[i]).0 != wanted,
        at < formats.len() ==> formats[at].0 == wanted,
    ensures
        usable_offer(formats, wanted, from) == if at < formats.len() && usable_modifiers(
            formats[at].1,
        ).len() > 0 {
            Some(usable_modifiers(formats[at].1))
        } else {
            None
        },
    decreases formats.len() - from,
{
    if from < formats.len() && from < at {
        assert(formats[from].0 != wanted);
        lemma_first_offer(formats, wanted, from + 1, at);
    }
}

/// Each byte of a value is one of the eight it was read from, the first the
/// lowest or the highest by the byte order; there are as many values as whole
/// groups of eight bytes.
pub proof fn law_a_value_is_its_eight_bytes(bytes: Seq<u8>, at: int, little: bool)
    requires
        0 <= at < bytes.len() / 8,
    ensures
        words_in(bytes, little).len() == bytes.len() / 8,
        ({
            let word = words_in(bytes, little)[at] as int;
            let byte = |k: int|
                bytes[8 * at + if little {
                    k
                } else {
                    7 - k
                }];
            &&& word % 0x100 == byte(0)
            &&& word / 0x100 % 0x100 == byte(1)
            &&& word / 0x1_0000 % 0x100 == byte(2)
            &&& word / 0x100_0000 % 0x100 == byte(3)
            &&& word / 0x1_0000_0000 % 0x100 == byte(4)
            &&& word / 0x100_0000_0000 % 0x100 == byte(5)
            &&& word / 0x1_0000_0000_0000 % 0x100 == byte(6)
            &&& word / 0x100_0000_0000_0000 == byte(7)
        }),
{
    let word = word_at(bytes, 8 * at, little);
    assert(words_in(bytes, little)[at] == word);
    let start = 8 * at;
    if little {
        lemma_bytes_of(
            bytes[start] as int,
            bytes[start + 1] as int,
            bytes[start + 2] as int,
            bytes[start + 3] as int,
            bytes[start + 4] as int,
            bytes[start + 5] as int,
            bytes[start + 6] as int,
            bytes[start + 7] as int,
        );
    } else {
        lemma_bytes_of(
            bytes[start + 7] as int,
            bytes[start + 6] as int,
            bytes[start + 5] as int,
            bytes[start + 4] as int,
            bytes[start + 3] as int,
            bytes[start + 2] as int,
            bytes[start + 1] as int,
            bytes[start] as int,
        );
    }
}

proof fn lemma_split(n: int, unit: int, q: int)
    requires
        unit > 0,
        0 <= n - unit * q < unit,
    ensures
        n / unit == q,
        n % unit == n - unit * q,
{
    assert(q * unit == unit * q) by (nonlinear_arith);
    vstd::arithmetic::div_mod::lemma_fundamental_div_mod_converse(n, unit, q, n - unit * q);
}

proof fn lemma_bytes_of(
    b0: int,
    b1: int,
    b2: int,
    b3: int,
    b4: int,
    b5: int,
    b6: int,
    b7: int,
)
    requires
        0 <= b0 < 0x100,
        0 <= b1 < 0x100,
        0 <= b2 < 0x100,
        0 <= b3 < 0x100,
        0 <= b4 < 0x100,
        0 <= b5 < 0x100,
        0 <= b6 < 0x100,
        0 <= b7 < 0x100,
    ensures
        ({
            let word = b0 + 0x100 * b1 + 0x1_0000 * b2 + 0x100_0000 * b3 + 0x1_0000_0000 * b4
                + 0x100_0000_0000 * b5 + 0x1_0000_0000_0000 * b6 + 0x100_0000_0000_0000 * b7;
            &&& 0 <= word <= u64::MAX
            &&& word % 0x100 == b0
            &&& word / 0x100 % 0x100 == b1
            &&& word / 0x1_0000 % 0x100 == b2
            &&& word / 0x100_0000 % 0x100 == b3
            &&& word / 0x1_0000_0000 % 0x100 == b4
            &&& word / 0x100_0000_0000 % 0x100 == b5
            &&& word / 0x1_0000_0000_0000 % 0x100 == b6
            &&& word / 0x100_0000_0000_0000 == b7
        }),
{
    let word = b0 + 0x100 * b1 + 0x1_0000 * b2 + 0x100_0000 * b3 + 0x1_0000_0000 * b4
        + 0x100_0000_0000 * b5 + 0x1_0000_0000_0000 * b6 + 0x100_0000_0000_0000 * b7;
    let q7 = b7;
    let q6 = b6 + 0x100 * q7;
    let q5 = b5 + 0x100 * q6;
    let q4 = b4 + 0x100 * q5;
    let q3 = b3 + 0x100 * q4;
    let q2 = b2 + 0x100 * q3;
    let q1 = b1 + 0x100 * q2;
    lemma_split(word, 0x100, q1);
    lemma_split(q1, 0x100, q2);
    lemma_split(word, 0x1_0000, q2);
    lemma_split(q2, 0x100, q3);
    lemma_split(word, 0x100_0000, q3);
    lemma_split(q3, 0x100, q4);
    lemma_split(word, 0x1_0000_0000, q4);
    lemma_split(q4, 0x100, q5);
    lemma_split(word, 0x100_0000_0000, q5);
    lemma_split(q5, 0x100, q6);
    lemma_split(word, 0x1_0000_0000_0000, q6);
    lemma_split(q6, 0x100, q7);
    lemma_split(word, 0x100_0000_0000_0000, q7);
}

/// A filter names a window by its whole app id or its whole title, whatever the
/// ASCII case, and is mentioned by one that has it somewhere in either, in
/// lowercase.
pub proof fn law_a_filter_goes_by_either_label(name: Name, filter: Seq<char>)
    ensures
        is_named(name, filter) <==> same_ignoring_case(name.app_id@, filter) || same_ignoring_case(
            name.title@,
            filter,
        ),
        mentions(name, filter) <==> (exists|at: int| #[trigger]
            occurs_at(lowered(name.app_id@), lowered(filter), at)) || (exists|at: int| #[trigger]
            occurs_at(lowered(name.title@), lowered(filter), at)),
        mentions(name, name.app_id@),
        mentions(name, name.title@),
{
    let (a, t) = (lowered(name.app_id@), lowered(name.title@));
    assert(a.subrange(0, a.len() as int) =~= a);
    assert(t.subrange(0, t.len() as int) =~= t);
    assert(occurs_at(a, a, 0));
    assert(occurs_at(t, t, 0));
}

/// Where no window is named in whole, the only one that mentions the filter is
/// selected; where none mentions it, or several are named, or several mention
/// it and none is named, there is no selection.
pub proof fn law_the_only_mention_is_selected(names: Seq<&Name>, filter: Seq<char>, index: int)
    requires
        trimmed(filter).len() > 0,
        names.len() <= usize::MAX,
        forall|i: int| 0 <= i < names.len() ==> !(#[trigger] is_named(*names[i], trimmed(filter))),
    ensures
        0 <= index < names.len() && (forall|i: int|
            0 <= i < names.len() ==> (#[trigger] mentions(*names[i], trimmed(filter)) <==> i
                == index)) ==> selected(names, filter) == Ok::<usize, ErrorView>(index as usize),
        (forall|i: int|
            0 <= i < names.len() ==> !(#[trigger] mentions(*names[i], trimmed(filter))))
            ==> selected(names, filter) is Err,
{
    let wanted = trimmed(filter);
    let exact = named_flags(names, wanted);
    let loose = mention_flags(names, wanted);
    lemma_set_positions(exact, exact.len() as int);
    lemma_set_positions(loose, loose.len() as int);
    if set_in(exact).len() > 0 {
        let k = set_in(exact)[0];
        assert(exact[k] == is_named(*names[k], wanted));
    }
    if 0 <= index < names.len() && (forall|i: int|
        0 <= i < names.len() ==> (#[trigger] mentions(*names[i], wanted) <==> i == index)) {
        assert forall|i: int| 0 <= i < loose.len() implies (#[trigger] loose[i] <==> i == index) by {
            assert(loose[i] == mentions(*names[i], wanted));
        }
        lemma_single_position(loose, loose.len() as int, index);
    }
    if forall|i: int| 0 <= i < names.len() ==> !(#[trigger] mentions(*names[i], wanted)) {
        if set_in(loose).len() > 0 {
            let k = set_in(loose)[0];
            assert(loose[k] == mentions(*names[k], wanted));
        }
    }
}

/// The window a description matches has the labels that were described: both,
/// and is then the only one; else the title, and is then the only one with it
/// while none has both; else the app id, and is then the only one with it while
/// none has the title.  A label that is empty matches nothing.
pub proof fn law_a_described_window_is_never_a_guess(
    names: Seq<&Name>,
    app_id: Seq<char>,
    title: Seq<char>,
    index: usize,
    other: int,
)
    requires
        matched(names, app_id, title) == Ok::<usize, ErrorView>(index),
        names.len() <= usize::MAX,
        0 <= other < names.len(),
    ensures
        0 <= index < names.len(),
        ({
            let (a, t) = (trimmed(app_id), trimmed(title));
            let own = names[index as int];
            let (same_app, same_title) = (
                names[other].app_id@ == a && a.len() > 0,
                names[other].title@ == t && t.len() > 0,
            );
            &&& own.app_id@ == a && a.len() > 0 || own.title@ == t && t.len() > 0
            &&& same_app && same_title ==> other == index
            &&& !(own.app_id@ == a && a.len() > 0 && own.title@ == t && t.len() > 0) && same_title
                ==> other == index
            &&& !(own.title@ == t && t.len() > 0) && same_app ==> other == index
        }),
{
    let (a, t) = (trimmed(app_id), trimmed(title));
    let both = both_flags(names, a, t);
    let titled = title_flags(names, t);
    let apps = app_flags(names, a);
    lemma_set_positions(both, both.len() as int);
    lemma_set_positions(titled, titled.len() as int);
    lemma_set_positions(apps, apps.len() as int);
    let found = described(names, a, t);
    assert(found.len() == 1);
    let k = found[0];
    assert(0 <= k < names.len());
    assert(both[k] == (has_label(names[k].app_id@, a) && has_label(names[k].title@, t)));
    assert(titled[k] == has_label(names[k].title@, t));
    assert(apps[k] == has_label(names[k].app_id@, a));
    assert(both[other] == (has_label(names[other].app_id@, a) && has_label(
        names[other].title@,
        t,
    )));
    assert(titled[other] == has_label(names[other].title@, t));
    assert(apps[other] == has_label(names[other].app_id@, a));
}

/// A description that only one window fits is matched: by both labels, or by
/// the title where none has both, or by the app id where none has the title.
pub proof fn law_the_only_window_that_fits_is_matched(
    names: Seq<&Name>,
    app_id: Seq<char>,
    title: Seq<char>,
    index: int,
)
    requires
        names.len() <= usize::MAX,
        0 <= index < names.len(),
    ensures
        ({
            let (a, t) = (trimmed(app_id), trimmed(title));
            let both = |i: int|
                names[i].app_id@ == a && a.len() > 0 && names[i].title@ == t && t.len() > 0;
            let titled = |i: int| names[i].title@ == t && t.len() > 0;
            let app = |i: int| names[i].app_id@ == a && a.len() > 0;
            let n = names.len();
            ({
                ||| forall|i: int| 0 <= i < n ==> (#[trigger] both(i) <==> i == index)
                ||| (forall|i: int| 0 <= i < n ==> !(#[trigger] both(i))) && (forall|i: int|
                    0 <= i < n ==> (#[trigger] titled(i) <==> i == index))
                ||| (forall|i: int| 0 <= i < n ==> !(#[trigger] titled(i))) && (forall|i: int|
                    0 <= i < n ==> (#[trigger] app(i) <==> i == index))
            }) ==> matched(names, app_id, title) == Ok::<usize, ErrorView>(index as usize)
        }),
{
    let (a, t) = (trimmed(app_id), trimmed(title));
    let both = |i: int|
        names[i].app_id@ == a && a.len() > 0 && names[i].title@ == t && t.len() > 0;
    let titled = |i: int| names[i].title@ == t && t.len() > 0;
    let app = |i: int| names[i].app_id@ == a && a.len() > 0;
    let n = names.len();
    let (flags2, flags1, flags0) = (
        both_flags(names, a, t),
        title_flags(names, t),
        app_flags(names, a),
    );
    lemma_set_positions(flags2, flags2.len() as int);
    lemma_set_positions(flags1, flags1.len() as int);
    assert forall|i: int| 0 <= i < n implies #[trigger] flags2[i] == both(i) by {}
    assert forall|i: int| 0 <= i < n implies #[trigger] flags1[i] == titled(i) by {}
    assert forall|i: int| 0 <= i < n implies #[trigger] flags0[i] == app(i) by {}
    if forall|i: int| 0 <= i < n ==> (#[trigger] both(i) <==> i == index) {
        assert forall|i: int| 0 <= i < n implies (#[trigger] flags2[i] <==> i == index) by {
            assert(flags2[i] == both(i));
        }
        lemma_single_position(flags2, flags2.len() as int, index);
    } else if (forall|i: int| 0 <= i < n ==> !(#[trigger] both(i))) && (forall|i: int|
        0 <= i < n ==> (#[trigger] titled(i) <==> i == index)) {
        assert forall|i: int| 0 <= i < n implies (#[trigger] flags1[i] <==> i == index) by {
            assert(flags1[i] == titled(i));
        }
        lemma_single_position(flags1, flags1.len() as int, index);
        if set_in(flags2).len() > 0 {
            let k = set_in(flags2)[0];
            assert(flags2[k] == both(k));
        }
    } else if (forall|i: int| 0 <= i < n ==> !(#[trigger] titled(i))) && (forall|i: int|
        0 <= i < n ==> (#[trigger] app(i) <==> i == index)) {
        assert forall|i: int| 0 <= i < n implies (#[trigger] flags0[i] <==> i == index) by {
            assert(flags0[i] == app(i));
        }
        lemma_single_position(flags0, flags0.len() as int, index);
        if set_in(flags2).len() > 0 {
            let k = set_in(flags2)[0];
            assert(flags2[k] == both(k));
            assert(titled(k));
        }
        if set_in(flags1).len() > 0 {
            let k = set_in(flags1)[0];
            assert(flags1[k] == titled(k));
        }
    }
}

/// A window is called by its label, and by a stand-in only where neither its
/// class nor its title says anything.
pub proof fn law_a_window_is_called_by_its_label(name: Name)
    ensures
        trimmed(name.app_id@).len() > 0 || trimmed(name.title@).len() > 0 ==> name.called()
            == label_of(name.app_id@, name.title@),
        trimmed(name.app_id@).len() == 0 && trimmed(name.title@).len() == 0 ==> name.called()
            == NO_LABEL@,
        trimmed(name.title@).len() == 0 && trimmed(name.app_id@).len() > 0 ==> name.called()
            == trimmed(name.app_id@),
        trimmed(name.app_id@).len() == 0 && trimmed(name.title@).len() > 0 ==> name.called()
            == trimmed(name.title@),
{
}

} // verus!
