//! The process id behind a window, for recording the sound of one application.
//!
//! A window's process is not part of the protocols a window is captured
//! through; it comes from the compositor's own command, and is looked up by the
//! labels the capture goes by.

use vstd::prelude::*;

use crate::error::{ErrorView, Result, VshotError};
use crate::json::{parse as parse_json, reading, trees, Json, Tree};
use crate::text::{concat2, same_text};

use super::active_output::Session;
use super::window::{
    answered, ask, CommandOutput, Question, Reply, WindowCommand, WindowCommandRunner,
};
use super::window_copy::Name;

verus! {

/// A label of a window in a list; a missing one counts as empty.
pub open spec fn label_field(value: Tree, key: Seq<char>) -> Seq<char> {
    match value.text_field(key) {
        Some(text) => text,
        None => Seq::empty(),
    }
}

/// The first window from `from` on that has both labels.
pub open spec fn with_both(
    list: Seq<Tree>,
    class_key: Seq<char>,
    app_id: Seq<char>,
    title: Seq<char>,
    from: int,
) -> Option<Tree>
    decreases list.len() - from,
{
    if from < 0 || from >= list.len() {
        None
    } else if label_field(list[from], class_key) == app_id && label_field(list[from], "title"@)
        == title {
        Some(list[from])
    } else {
        with_both(list, class_key, app_id, title, from + 1)
    }
}

/// The first window from `from` on that has the title.
pub open spec fn with_title(list: Seq<Tree>, title: Seq<char>, from: int) -> Option<Tree>
    decreases list.len() - from,
{
    if from < 0 || from >= list.len() {
        None
    } else if title.len() > 0 && label_field(list[from], "title"@) == title {
        Some(list[from])
    } else {
        with_title(list, title, from + 1)
    }
}

/// The process of a window, when the list states one that can be one.
pub open spec fn pid_field(value: Tree) -> Option<i32> {
    match value.signed_field("pid"@) {
        Some(pid) => if i32::MIN <= pid <= i32::MAX {
            Some(pid as i32)
        } else {
            None
        },
        None => None,
    }
}

/// The process of the window with these labels: both of them, or else the
/// title, as long as there is one.
pub open spec fn pid_in(
    list: Seq<Tree>,
    class_key: Seq<char>,
    app_id: Seq<char>,
    title: Seq<char>,
) -> Option<i32> {
    match with_both(list, class_key, app_id, title, 0) {
        Some(window) => pid_field(window),
        None => match with_title(list, title, 0) {
            Some(window) => pid_field(window),
            None => None,
        },
    }
}

fn same_label(value: &Json, key: &str, label: &str) -> (same: bool)
    ensures
        same == (label_field(value@, key@) == label@),
{
    match value.text_field(key) {
        Some(text) => same_text(text, label),
        None => {
            let same = label.is_empty();
            assert(same ==> label@ =~= Seq::<char>::empty());
            same
        },
    }
}

fn read_pid(value: &Json) -> (pid: Option<i32>)
    ensures
        pid == pid_field(value@),
{
    match value.signed_field("pid") {
        Some(pid) => if i32::MIN as i64 <= pid && pid <= i32::MAX as i64 {
            Some(pid as i32)
        } else {
            None
        },
        None => None,
    }
}

/// The process of the window with these labels in a list whose app ids stand
/// under `class_key`.
pub fn find_pid(list: &Vec<Json>, class_key: &str, name: &Name) -> (pid: Option<i32>)
    ensures
        pid == pid_in(trees(list@), class_key@, name.app_id@, name.title@),
{
    let mut i: usize = 0;
    while i < list.len()
        invariant
            i <= list@.len(),
            with_both(trees(list@), class_key@, name.app_id@, name.title@, 0) == with_both(
                trees(list@),
                class_key@,
                name.app_id@,
                name.title@,
                i as int,
            ),
        decreases list.len() - i,
    {
        assert(trees(list@)[i as int] == list@[i as int]@);
        if same_label(&list[i], class_key, name.app_id.as_str()) && same_label(
            &list[i],
            "title",
            name.title.as_str(),
        ) {
            return read_pid(&list[i]);
        }
        i = i + 1;
    }
    let mut k: usize = 0;
    while k < list.len()
        invariant
            k <= list@.len(),
            with_title(trees(list@), name.title@, 0) == with_title(
                trees(list@),
                name.title@,
                k as int,
            ),
            with_both(trees(list@), class_key@, name.app_id@, name.title@, 0) is None,
        decreases list.len() - k,
    {
        assert(trees(list@)[k as int] == list@[k as int]@);
        if !name.title.as_str().is_empty() && same_label(&list[k], "title", name.title.as_str()) {
            return read_pid(&list[k]);
        }
        k = k + 1;
    }
    None
}

// ---------------------------------------------------------------------------
// Hyprland
// ---------------------------------------------------------------------------
/// The process of a window in the document `hyprctl clients -j` prints.
pub open spec fn hyprland_pid_in(value: Tree, app_id: Seq<char>, title: Seq<char>) -> Option<i32> {
    match value.items() {
        Some(clients) => pid_in(clients, "class"@, app_id, title),
        None => None,
    }
}

/// The process of a window in what `hyprctl clients -j` prints; nothing where
/// that is no JSON.
pub open spec fn hyprland_pid_said(bytes: Seq<u8>, app_id: Seq<char>, title: Seq<char>) -> Option<
    i32,
> {
    match reading(bytes) {
        Ok(value) => hyprland_pid_in(value, app_id, title),
        Err(_) => None,
    }
}

/// The process of a window in Hyprland's list.
pub fn hyprland_client_pid(value: &Json, name: &Name) -> (pid: Option<i32>)
    ensures
        pid == hyprland_pid_in(value@, name.app_id@, name.title@),
{
    match value.as_array() {
        Some(clients) => find_pid(clients, "class", name),
        None => None,
    }
}

pub fn parse_hyprland_pid(bytes: &[u8], name: &Name) -> (pid: Option<i32>)
    ensures
        pid == hyprland_pid_said(bytes@, name.app_id@, name.title@),
{
    match parse_json(bytes) {
        Ok(value) => hyprland_client_pid(&value, name),
        Err(_) => None,
    }
}

/// What asking Hyprland for a process comes to with this reply.
pub open spec fn hyprland_answer(reply: Reply, name: Name) -> core::result::Result<
    Option<i32>,
    ErrorView,
> {
    match reply {
        Err(error) => Err(error@),
        Ok(output) => if output.success {
            Ok(hyprland_pid_said(output.stdout@, name.app_id@, name.title@))
        } else {
            Err(ErrorView::Recording("`hyprctl clients` exited with "@ + output.status@))
        },
    }
}

/// The process of a window, from what `hyprctl clients -j` came to.
pub fn judge_hyprland(output: &CommandOutput, name: &Name) -> (pid: Result<Option<i32>>)
    ensures
        match pid {
            Ok(pid) => hyprland_answer(Ok(*output), *name) == Ok::<Option<i32>, ErrorView>(pid),
            Err(error) => hyprland_answer(Ok(*output), *name) == Err::<Option<i32>, ErrorView>(
                error@,
            ),
        },
{
    if !output.success {
        return Err(
            VshotError::Recording(
                concat2("`hyprctl clients` exited with ", output.status.as_str()),
            ),
        );
    }
    Ok(parse_hyprland_pid(output.stdout.as_slice(), name))
}

// ---------------------------------------------------------------------------
// niri
// ---------------------------------------------------------------------------
/// Whether the focused window is the one meant: by its title where it has no
/// app id to go by, else by both.
pub open spec fn is_focused_window(value: Tree, app_id: Seq<char>, title: Seq<char>) -> bool {
    if app_id.len() == 0 {
        title.len() > 0 && label_field(value, "title"@) == title
    } else {
        label_field(value, "app_id"@) == app_id && label_field(value, "title"@) == title
    }
}

/// The process of the focused window, when it is the one meant.
pub open spec fn focused_pid(value: Tree, app_id: Seq<char>, title: Seq<char>) -> Option<i32> {
    if is_focused_window(value, app_id, title) {
        pid_field(value)
    } else {
        None
    }
}

/// The process of the focused window, when it is the one meant.
pub fn niri_pid_of(value: &Json, name: &Name) -> (pid: Option<i32>)
    ensures
        pid == focused_pid(value@, name.app_id@, name.title@),
{
    let same = if name.app_id.as_str().is_empty() {
        !name.title.as_str().is_empty() && same_label(value, "title", name.title.as_str())
    } else {
        same_label(value, "app_id", name.app_id.as_str()) && same_label(
            value,
            "title",
            name.title.as_str(),
        )
    };
    if same {
        read_pid(value)
    } else {
        None
    }
}

/// The document a run of `niri msg` printed, when it succeeded and printed one.
pub open spec fn niri_document(output: CommandOutput) -> Option<Tree> {
    if output.success {
        match reading(output.stdout@) {
            Ok(value) => Some(value),
            Err(_) => None,
        }
    } else {
        None
    }
}

/// The process of a window in niri's list of windows.
pub open spec fn niri_listed(value: Option<Tree>, app_id: Seq<char>, title: Seq<char>) -> Option<
    i32,
> {
    match value {
        Some(value) => match value.items() {
            Some(list) => pid_in(list, "app_id"@, app_id, title),
            None => None,
        },
        None => None,
    }
}

/// The process of the focused window, where that is the one meant.
pub open spec fn focused_told(focused: CommandOutput, name: Name) -> Option<i32> {
    match niri_document(focused) {
        Some(value) => focused_pid(value, name.app_id@, name.title@),
        None => None,
    }
}

/// What asking niri for a process comes to with these replies: the focused
/// window's where it is the one meant, else the one in the list.
pub open spec fn niri_answer(focused: Reply, windows: Reply, name: Name) -> core::result::Result<
    Option<i32>,
    ErrorView,
> {
    match focused {
        Err(error) => Err(error@),
        Ok(focused) => match focused_told(focused, name) {
            Some(pid) => Ok(Some(pid)),
            None => match windows {
                Err(error) => Err(error@),
                Ok(windows) => Ok(niri_listed(niri_document(windows), name.app_id@, name.title@)),
            },
        },
    }
}

fn read_niri(output: &CommandOutput) -> (value: Option<Json>)
    ensures
        match value {
            Some(value) => niri_document(*output) == Some(value@),
            None => niri_document(*output) is None,
        },
{
    if !output.success {
        return None;
    }
    match parse_json(output.stdout.as_slice()) {
        Ok(value) => Some(value),
        Err(_) => None,
    }
}

/// The process of the focused window, from what `niri msg --json
/// focused-window` came to.
pub fn judge_niri_focused(output: &CommandOutput, name: &Name) -> (pid: Option<i32>)
    ensures
        pid == focused_told(*output, *name),
{
    match read_niri(output) {
        Some(value) => niri_pid_of(&value, name),
        None => None,
    }
}

/// The process of a window, from what `niri msg --json windows` came to.
pub fn judge_niri_windows(output: &CommandOutput, name: &Name) -> (pid: Option<i32>)
    ensures
        pid == niri_listed(niri_document(*output), name.app_id@, name.title@),
{
    match read_niri(output) {
        Some(value) => match value.as_array() {
            Some(list) => find_pid(list, "app_id", name),
            None => None,
        },
        None => None,
    }
}

/// What is run to ask niri a question.
pub open spec fn niri_question(question: Seq<char>) -> Question {
    ("niri"@, seq!["msg"@, "--json"@, question])
}

/// The command that asks niri a question.
pub fn niri_command(question: &str) -> (command: WindowCommand)
    ensures
        command@ == niri_question(question@),
{
    let args = vec!["msg".to_owned(), "--json".to_owned(), question.to_owned()];
    let command = WindowCommand { program: "niri".to_owned(), args };
    assert(command@.1 =~= seq!["msg"@, "--json"@, question@]);
    command
}

// ---------------------------------------------------------------------------
// Asking
// ---------------------------------------------------------------------------
/// Whether this is what comes of asking a session for a window's process when
/// these are what the commands came to; a compositor without processes to tell
/// is not asked.
pub open spec fn pid_found(
    session: Session,
    name: Name,
    first: Reply,
    second: Reply,
    pid: core::result::Result<Option<i32>, VshotError>,
) -> bool {
    let expected = match session {
        Session::Hyprland => hyprland_answer(first, name),
        Session::Niri => niri_answer(first, second, name),
        _ => Ok(None),
    };
    match pid {
        Ok(pid) => expected == Ok::<Option<i32>, ErrorView>(pid),
        Err(error) => expected == Err::<Option<i32>, ErrorView>(error@),
    }
}

/// The replies are the runner's to what a session is asked for a window's
/// process.  niri is asked for all its windows only where the focused one is
/// not the one meant.
pub open spec fn pid_asked<R: WindowCommandRunner>(
    session: Session,
    runner: &R,
    name: Name,
    first: Reply,
    second: Reply,
) -> bool {
    match session {
        Session::Hyprland => answered(runner, ("hyprctl"@, seq!["clients"@, "-j"@]), first),
        Session::Niri => {
            &&& answered(runner, niri_question("focused-window"@), first)
            &&& (first matches Ok(focused) && focused_told(focused, name) is None) ==> answered(
                runner,
                niri_question("windows"@),
                second,
            )
        },
        _ => true,
    }
}

fn hyprland_pid<R: WindowCommandRunner>(runner: &R, name: &Name) -> (pid: Result<Option<i32>>)
    ensures
        exists|first: Reply, second: Reply| #[trigger]
            pid_found(Session::Hyprland, *name, first, second, pid) && pid_asked(
                Session::Hyprland,
                runner,
                *name,
                first,
                second,
            ),
{
    let reply = ask(runner, &WindowCommand::hyprland_clients());
    let ghost said = reply;
    let pid = match reply {
        Ok(output) => judge_hyprland(&output, name),
        Err(error) => Err(error),
    };
    assert(pid_found(Session::Hyprland, *name, said, said, pid));
    pid
}

/// The process of a window on niri.
pub fn niri_pid<R: WindowCommandRunner>(runner: &R, name: &Name) -> (pid: Result<Option<i32>>)
    ensures
        exists|first: Reply, second: Reply| #[trigger]
            pid_found(Session::Niri, *name, first, second, pid) && pid_asked(
                Session::Niri,
                runner,
                *name,
                first,
                second,
            ),
{
    let focused = match ask(runner, &niri_command("focused-window")) {
        Ok(output) => output,
        Err(error) => {
            let pid: Result<Option<i32>> = Err(error);
            assert(pid_found(Session::Niri, *name, Err(error), Err(error), pid));
            return pid;
        },
    };
    if let Some(pid) = judge_niri_focused(&focused, name) {
        assert(pid_found(Session::Niri, *name, Ok(focused), Ok(focused), Ok(Some(pid))));
        return Ok(Some(pid));
    }
    match ask(runner, &niri_command("windows")) {
        Ok(windows) => {
            let pid: Result<Option<i32>> = Ok(judge_niri_windows(&windows, name));
            assert(pid_found(Session::Niri, *name, Ok(focused), Ok(windows), pid));
            pid
        },
        Err(error) => {
            let pid: Result<Option<i32>> = Err(error);
            assert(pid_found(Session::Niri, *name, Ok(focused), Err(error), pid));
            pid
        },
    }
}

/// The process that owns a window, or `None` when the session's compositor
/// cannot say.
pub fn pid_for<R: WindowCommandRunner>(session: Session, runner: &R, name: &Name) -> (pid: Result<
    Option<i32>,
>)
    ensures
        exists|first: Reply, second: Reply| #[trigger]
            pid_found(session, *name, first, second, pid) && pid_asked(
                session,
                runner,
                *name,
                first,
                second,
            ),
        session != Session::Hyprland && session != Session::Niri ==> pid == Ok::<
            Option<i32>,
            VshotError,
        >(None),
{
    match session {
        Session::Hyprland => hyprland_pid(runner, name),
        Session::Niri => niri_pid(runner, name),
        _ => {
            let ghost reply: Reply = Err(VshotError::CaptureTimeout);
            assert(pid_found(session, *name, reply, reply, Ok(None)));
            Ok(None)
        },
    }
}

/// What a window is called in a diagnostic.
pub fn describe(name: &Name) -> (text: String)
    ensures
        text@ == name.called(),
{
    name.describe()
}

/// A window with both labels is found before one that shares only the title.
pub proof fn law_both_labels_come_before_the_title(
    list: Seq<Tree>,
    class_key: Seq<char>,
    app_id: Seq<char>,
    title: Seq<char>,
    i: int,
)
    requires
        0 <= i < list.len(),
        label_field(list[i], class_key) == app_id,
        label_field(list[i], "title"@) == title,
    ensures
        exists|k: int|
            0 <= k <= i && label_field(#[trigger] list[k], class_key) == app_id && label_field(
                list[k],
                "title"@,
            ) == title && pid_in(list, class_key, app_id, title) == pid_field(list[k]),
{
    let k = lemma_with_both(list, class_key, app_id, title, 0, i);
    assert(pid_in(list, class_key, app_id, title) == pid_field(list[k]));
}

proof fn lemma_with_both(
    list: Seq<Tree>,
    class_key: Seq<char>,
    app_id: Seq<char>,
    title: Seq<char>,
    from: int,
    i: int,
) -> (k: int)
    requires
        0 <= from <= i < list.len(),
        label_field(list[i], class_key) == app_id,
        label_field(list[i], "title"@) == title,
    ensures
        from <= k <= i,
        label_field(list[k], class_key) == app_id,
        label_field(list[k], "title"@) == title,
        with_both(list, class_key, app_id, title, from) == Some(list[k]),
    decreases i - from,
{
    if label_field(list[from], class_key) == app_id && label_field(list[from], "title"@) == title {
        from
    } else {
        lemma_with_both(list, class_key, app_id, title, from + 1, i)
    }
}

/// The process is that of the first window with both labels; without one, that
/// of the first window with the title, where there is a title to go by; and
/// there is none where neither is there.
pub proof fn law_a_process_is_that_of_the_first_window_meant(
    list: Seq<Tree>,
    class_key: Seq<char>,
    app_id: Seq<char>,
    title: Seq<char>,
    at: int,
)
    requires
        forall|i: int|
            0 <= i < at && i < list.len() ==> !(label_field(#[trigger] list[i], class_key) == app_id
                && label_field(list[i], "title"@) == title),
    ensures
        0 <= at < list.len() && label_field(list[at], class_key) == app_id && label_field(
            list[at],
            "title"@,
        ) == title ==> pid_in(list, class_key, app_id, title) == pid_field(list[at]),
        at >= list.len() && title.len() == 0 ==> pid_in(list, class_key, app_id, title) is None,
        forall|k: int|
            at >= list.len() && title.len() > 0 && 0 <= k < list.len() && label_field(
                #[trigger] list[k],
                "title"@,
            ) == title && (forall|i: int|
                0 <= i < k ==> label_field(#[trigger] list[i], "title"@) != title) ==> pid_in(
                list,
                class_key,
                app_id,
                title,
            ) == pid_field(list[k]),
        at >= list.len() && (forall|i: int|
            0 <= i < list.len() ==> label_field(#[trigger] list[i], "title"@) != title) ==> pid_in(
            list,
            class_key,
            app_id,
            title,
        ) is None,
{
    lemma_first_with_both(list, class_key, app_id, title, 0, at);
    if at >= list.len() {
        if title.len() == 0 || (forall|i: int|
            0 <= i < list.len() ==> label_field(#[trigger] list[i], "title"@) != title) {
            lemma_none_with_title(list, title, 0);
        }
        assert forall|k: int|
            title.len() > 0 && 0 <= k < list.len() && label_field(#[trigger] list[k], "title"@)
                == title && (forall|i: int|
                0 <= i < k ==> label_field(#[trigger] list[i], "title"@) != title) implies pid_in(
            list,
            class_key,
            app_id,
            title,
        ) == pid_field(list[k]) by {
            lemma_first_with_title(list, title, 0, k);
        }
    }
}

proof fn lemma_first_with_both(
    list: Seq<Tree>,
    class_key: Seq<char>,
    app_id: Seq<char>,
    title: Seq<char>,
    from: int,
    at: int,
)
    requires
        0 <= from,
        forall|i: int|
            from <= i < at && i < list.len() ==> !(label_field(#[trigger] list[i], class_key)
                == app_id && label_field(list[i], "title"@) == title),
    ensures
        from <= at < list.len() && label_field(list[at], class_key) == app_id && label_field(
            list[at],
            "title"@,
        ) == title ==> with_both(list, class_key, app_id, title, from) == Some(list[at]),
        at >= list.len() ==> with_both(list, class_key, app_id, title, from) is None,
    decreases list.len() - from,
{
    if from < list.len() && from < at {
        assert(!(label_field(list[from], class_key) == app_id && label_field(list[from], "title"@)
            == title));
        lemma_first_with_both(list, class_key, app_id, title, from + 1, at);
    }
}

proof fn lemma_first_with_title(list: Seq<Tree>, title: Seq<char>, from: int, at: int)
    requires
        0 <= from <= at < list.len(),
        title.len() > 0,
        label_field(list[at], "title"@) == title,
        forall|i: int| from <= i < at ==> label_field(#[trigger] list[i], "title"@) != title,
    ensures
        with_title(list, title, from) == Some(list[at]),
    decreases at - from,
{
    if from < at {
        assert(label_field(list[from], "title"@) != title);
        lemma_first_with_title(list, title, from + 1, at);
    }
}

proof fn lemma_none_with_title(list: Seq<Tree>, title: Seq<char>, from: int)
    requires
        0 <= from,
        title.len() == 0 || (forall|i: int|
            from <= i < list.len() ==> label_field(#[trigger] list[i], "title"@) != title),
    ensures
        with_title(list, title, from) is None,
    decreases list.len() - from,
{
    if from < list.len() {
        lemma_none_with_title(list, title, from + 1);
    }
}

/// The process is the number the window states, as long as it can be one; a
/// label that is missing counts as empty.
pub proof fn law_a_process_is_the_number_the_window_states(window: Tree, key: Seq<char>)
    ensures
        match pid_field(window) {
            Some(pid) => window.signed_field("pid"@) == Some(pid as i64),
            None => window.signed_field("pid"@) matches Some(n) ==> n < i32::MIN || n > i32::MAX,
        },
        window.text_field(key) matches Some(text) ==> label_field(window, key) == text,
        window.text_field(key) is None ==> label_field(window, key).len() == 0,
{
}

/// On niri the focused window answers where it is the one meant: by both labels,
/// or by the title alone where no app id is asked for; else the list of windows
/// does.  Hyprland's list goes by the class, niri's by the app id.
pub proof fn law_the_focused_window_answers_before_the_list(
    focused: CommandOutput,
    listed: CommandOutput,
    name: Name,
    value: Tree,
    list: Seq<Tree>,
)
    requires
        focused.success,
        reading(focused.stdout@) == Ok::<Tree, Seq<char>>(value),
        listed.success,
        reading(listed.stdout@) == Ok::<Tree, Seq<char>>(Tree::Array(list)),
    ensures
        ({
            let meant = label_field(value, "title"@) == name.title@ && (name.app_id@.len() == 0
                && name.title@.len() > 0 || name.app_id@.len() > 0 && label_field(value, "app_id"@)
                == name.app_id@);
            niri_answer(Ok(focused), Ok(listed), name) == Ok::<Option<i32>, ErrorView>(
                if meant && pid_field(value) is Some {
                    pid_field(value)
                } else {
                    pid_in(list, "app_id"@, name.app_id@, name.title@)
                },
            )
        }),
        hyprland_answer(Ok(listed), name) == Ok::<Option<i32>, ErrorView>(
            pid_in(list, "class"@, name.app_id@, name.title@),
        ),
{
}

} // verus!
