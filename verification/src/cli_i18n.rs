//! The language of the command line's own help.
//!
//! Translations are addressed by place, not by the English wording: a command
//! by the names that lead to it, an argument by its id.  Where there is no
//! translation the English text stays.

use vstd::prelude::*;

use crate::cli_i18n_table::{argument_texts, arguments, command_texts, commands, ArgumentText, CommandText};
use crate::text::{concat3, lowered, occurs_at, same_text, starts_with_text, to_lowercase, trim, trimmed};

verus! {

#[derive(Clone, Copy, Debug, PartialEq, Eq, Structural)]
pub enum Language {
    English,
    Chinese,
}

/// The environment variables that say which language to use.
#[derive(Clone, Debug, Default)]
pub struct Locale {
    pub vshot_lang: Option<String>,
    pub lc_all: Option<String>,
    pub lc_messages: Option<String>,
    pub lang: Option<String>,
}

/// The language a locale name stands for.
pub open spec fn language_named(name: Seq<char>) -> Language {
    if occurs_at(name, "zh"@, 0) {
        Language::Chinese
    } else {
        Language::English
    }
}

impl Locale {
    /// The first of the locale's variables that is set.
    pub open spec fn name(self) -> Seq<char> {
        match self.lc_all {
            Some(name) => name@,
            None => match self.lc_messages {
                Some(name) => name@,
                None => match self.lang {
                    Some(name) => name@,
                    None => Seq::empty(),
                },
            },
        }
    }

    /// The language of the help: what the program's own variable says, unless
    /// it is unset or blank, and else the locale's.
    pub open spec fn chosen(self) -> Language {
        match self.vshot_lang {
            Some(wish) => if lowered(trimmed(wish@)).len() > 0 {
                language_named(lowered(trimmed(wish@)))
            } else {
                language_named(lowered(self.name()))
            },
            None => language_named(lowered(self.name())),
        }
    }

    /// The language of the locale.
    fn locale_language(&self) -> (language: Language)
        ensures
            language == language_named(lowered(self.name())),
    {
        let name = if let Some(name) = &self.lc_all {
            to_lowercase(name.as_str())
        } else if let Some(name) = &self.lc_messages {
            to_lowercase(name.as_str())
        } else if let Some(name) = &self.lang {
            to_lowercase(name.as_str())
        } else {
            let empty = to_lowercase("");
            proof {
                reveal_strlit("");
                assert(""@ =~= Seq::<char>::empty());
            }
            empty
        };
        language_of(name.as_str())
    }

    /// The language of the help.
    pub fn language(&self) -> (language: Language)
        ensures
            language == self.chosen(),
    {
        match &self.vshot_lang {
            Some(wish) => {
                let wish = to_lowercase(trim(wish.as_str()).as_str());
                if wish.as_str().is_empty() {
                    self.locale_language()
                } else {
                    language_of(wish.as_str())
                }
            },
            None => self.locale_language(),
        }
    }

    /// Whether to speak Chinese.
    pub fn prefers_chinese(&self) -> (chinese: bool)
        ensures
            chinese == (self.chosen() == Language::Chinese),
    {
        self.language() == Language::Chinese
    }
}

/// The language a locale name stands for.
pub fn language_of(name: &str) -> (language: Language)
    ensures
        language == language_named(name@),
{
    if starts_with_text(name, "zh") {
        Language::Chinese
    } else {
        Language::English
    }
}

// ---------------------------------------------------------------------------
// The help of a command and all its subcommands
// ---------------------------------------------------------------------------
/// The help of one argument.
#[derive(Clone, Debug, PartialEq, Eq)]
pub struct ArgumentHelp {
    pub id: String,
    pub help: Option<String>,
    pub long_help: Option<String>,
}

/// The help of one command.
#[derive(Debug)]
pub struct CommandHelp {
    pub name: String,
    pub about: Option<String>,
    pub after_help: Option<String>,
    pub arguments: Vec<ArgumentHelp>,
    pub subcommands: Vec<CommandHelp>,
}

/// The texts of an argument's help.
pub struct ArgumentView {
    pub id: Seq<char>,
    pub help: Option<Seq<char>>,
    pub long_help: Option<Seq<char>>,
}

/// The texts of a command's help.
pub struct HelpTree {
    pub name: Seq<char>,
    pub about: Option<Seq<char>>,
    pub after_help: Option<Seq<char>>,
    pub arguments: Seq<ArgumentView>,
    pub subcommands: Seq<HelpTree>,
}

/// An optional text.
pub open spec fn text_in(text: Option<String>) -> Option<Seq<char>> {
    match text {
        Some(text) => Some(text@),
        None => None,
    }
}

impl View for ArgumentHelp {
    type V = ArgumentView;

    open spec fn view(&self) -> ArgumentView {
        ArgumentView {
            id: self.id@,
            help: text_in(self.help),
            long_help: text_in(self.long_help),
        }
    }
}

/// The texts of a list of arguments.
pub open spec fn argument_views(list: Seq<ArgumentHelp>) -> Seq<ArgumentView> {
    Seq::new(list.len(), |i: int| list[i]@)
}

impl CommandHelp {
    pub open spec fn view(&self) -> HelpTree
        decreases self,
    {
        HelpTree {
            name: self.name@,
            about: text_in(self.about),
            after_help: text_in(self.after_help),
            arguments: argument_views(self.arguments@),
            subcommands: Seq::new(
                self.subcommands@.len(),
                |i: int|
                    if 0 <= i < self.subcommands@.len() {
                        self.subcommands@[i].view()
                    } else {
                        arbitrary()
                    },
            ),
        }
    }
}

/// The path of a subcommand.
pub open spec fn path_of_child(path: Seq<char>, name: Seq<char>) -> Seq<char> {
    if path.len() == 0 {
        name
    } else {
        path + " "@ + name
    }
}

/// The first text, from `from` on, for a command.
pub open spec fn command_text(texts: Seq<CommandText>, path: Seq<char>, from: int) -> Option<
    CommandText,
>
    decreases texts.len() - from,
{
    if from < 0 || from >= texts.len() {
        None
    } else if texts[from].path@ == path {
        Some(texts[from])
    } else {
        command_text(texts, path, from + 1)
    }
}

/// The first text, from `from` on, for an argument.
pub open spec fn argument_text(texts: Seq<ArgumentText>, id: Seq<char>, from: int) -> Option<
    ArgumentText,
>
    decreases texts.len() - from,
{
    if from < 0 || from >= texts.len() {
        None
    } else if texts[from].id@ == id {
        Some(texts[from])
    } else {
        argument_text(texts, id, from + 1)
    }
}

/// A text where there was one.
pub open spec fn in_place_of(text: Option<Seq<char>>, other: Seq<char>) -> Option<Seq<char>> {
    match text {
        Some(_) => Some(other),
        None => None,
    }
}

/// The help of an argument in Chinese.  Help it does not have it does not get.
pub open spec fn chinese_argument(argument: ArgumentView) -> ArgumentView {
    match argument_text(argument_texts(), argument.id, 0) {
        Some(text) => ArgumentView {
            id: argument.id,
            help: in_place_of(argument.help, text.help@),
            long_help: in_place_of(argument.long_help, text.help@),
        },
        None => argument,
    }
}

/// The help of a command and all its subcommands in Chinese.
pub open spec fn chinese(command: HelpTree, path: Seq<char>) -> HelpTree
    decreases command,
{
    let (about, after_help) = match command_text(command_texts(), path, 0) {
        Some(text) => (
            Some(text.about@),
            if text.after_help@.len() == 0 {
                command.after_help
            } else {
                Some(text.after_help@)
            },
        ),
        None => (command.about, command.after_help),
    };
    HelpTree {
        name: command.name,
        about,
        after_help,
        arguments: Seq::new(
            command.arguments.len(),
            |i: int| chinese_argument(command.arguments[i]),
        ),
        subcommands: Seq::new(
            command.subcommands.len(),
            |i: int|
                if 0 <= i < command.subcommands.len() {
                    chinese(
                        command.subcommands[i],
                        path_of_child(path, command.subcommands[i].name),
                    )
                } else {
                    arbitrary()
                },
        ),
    }
}

/// The help in a language.
pub open spec fn spoken(command: HelpTree, language: Language) -> HelpTree {
    match language {
        Language::English => command,
        Language::Chinese => chinese(command, Seq::empty()),
    }
}

fn find_command(texts: &Vec<CommandText>, path: &str) -> (text: Option<CommandText>)
    ensures
        text == command_text(texts@, path@, 0),
{
    let mut i: usize = 0;
    while i < texts.len()
        invariant
            i <= texts@.len(),
            command_text(texts@, path@, 0) == command_text(texts@, path@, i as int),
        decreases texts.len() - i,
    {
        if same_text(texts[i].path, path) {
            return Some(texts[i]);
        }
        i = i + 1;
    }
    None
}

fn find_argument(texts: &Vec<ArgumentText>, id: &str) -> (text: Option<ArgumentText>)
    ensures
        text == argument_text(texts@, id@, 0),
{
    let mut i: usize = 0;
    while i < texts.len()
        invariant
            i <= texts@.len(),
            argument_text(texts@, id@, 0) == argument_text(texts@, id@, i as int),
        decreases texts.len() - i,
    {
        if same_text(texts[i].id, id) {
            return Some(texts[i]);
        }
        i = i + 1;
    }
    None
}

fn copy_text(text: &Option<String>) -> (copy: Option<String>)
    ensures
        text_in(copy) == text_in(*text),
{
    match text {
        Some(text) => Some(text.clone()),
        None => None,
    }
}

fn replace_text(text: &Option<String>, other: &str) -> (replaced: Option<String>)
    ensures
        text_in(replaced) == in_place_of(text_in(*text), other@),
{
    match text {
        Some(_) => Some(other.to_owned()),
        None => None,
    }
}

fn translate_argument(argument: &ArgumentHelp, texts: &Vec<ArgumentText>) -> (translated:
    ArgumentHelp)
    requires
        texts@ == argument_texts(),
    ensures
        translated@ == chinese_argument(argument@),
{
    match find_argument(texts, argument.id.as_str()) {
        Some(text) => ArgumentHelp {
            id: argument.id.clone(),
            help: replace_text(&argument.help, text.help),
            long_help: replace_text(&argument.long_help, text.help),
        },
        None => ArgumentHelp {
            id: argument.id.clone(),
            help: copy_text(&argument.help),
            long_help: copy_text(&argument.long_help),
        },
    }
}

fn child_path(path: &str, name: &str) -> (child: String)
    ensures
        child@ == path_of_child(path@, name@),
{
    if path.is_empty() {
        name.to_owned()
    } else {
        concat3(path, " ", name)
    }
}

fn translate(
    command: &CommandHelp,
    path: &str,
    texts: &Vec<CommandText>,
    argument_list: &Vec<ArgumentText>,
) -> (translated: CommandHelp)
    requires
        texts@ == command_texts(),
        argument_list@ == argument_texts(),
    ensures
        translated@ == chinese(command@, path@),
    decreases command,
{
    let (about, after_help) = match find_command(texts, path) {
        Some(text) => (
            Some(text.about.to_owned()),
            if text.after_help.is_empty() {
                copy_text(&command.after_help)
            } else {
                Some(text.after_help.to_owned())
            },
        ),
        None => (copy_text(&command.about), copy_text(&command.after_help)),
    };
    let mut arguments: Vec<ArgumentHelp> = Vec::new();
    while arguments.len() < command.arguments.len()
        invariant
            argument_list@ == argument_texts(),
            arguments@.len() <= command.arguments@.len(),
            forall|i: int|
                0 <= i < arguments@.len() ==> (#[trigger] arguments@[i])@ == chinese_argument(
                    command.arguments@[i]@,
                ),
        decreases command.arguments.len() - arguments.len(),
    {
        let argument = translate_argument(&command.arguments[arguments.len()], argument_list);
        arguments.push(argument);
    }
    let mut subcommands: Vec<CommandHelp> = Vec::new();
    while subcommands.len() < command.subcommands.len()
        invariant
            texts@ == command_texts(),
            argument_list@ == argument_texts(),
            subcommands@.len() <= command.subcommands@.len(),
            forall|i: int|
                0 <= i < subcommands@.len() ==> (#[trigger] subcommands@[i])@ == chinese(
                    command.subcommands@[i]@,
                    path_of_child(path@, command.subcommands@[i].name@),
                ),
        decreases command.subcommands.len() - subcommands.len(),
    {
        let child = &command.subcommands[subcommands.len()];
        proof {
            let at = subcommands@.len() as int;
            assert(decreases_to!(command => command.subcommands));
            assert(decreases_to!(command.subcommands => command.subcommands@));
            assert(decreases_to!(command.subcommands@ => command.subcommands@[at]));
        }
        let translated = translate(
            child,
            child_path(path, child.name.as_str()).as_str(),
            texts,
            argument_list,
        );
        subcommands.push(translated);
    }
    let translated = CommandHelp {
        name: command.name.clone(),
        about,
        after_help,
        arguments,
        subcommands,
    };
    proof {
        let whole = chinese(command@, path@);
        assert(translated@.arguments =~= whole.arguments);
        assert(translated@.subcommands =~= whole.subcommands);
    }
    translated
}

/// Puts the help into a language.
pub fn localize_with(command: &mut CommandHelp, language: Language)
    ensures
        final(command)@ == spoken(old(command)@, language),
{
    if language != Language::Chinese {
        return;
    }
    let (texts, argument_list) = (commands(), arguments());
    let translated = translate(command, "", &texts, &argument_list);
    proof {
        reveal_strlit("");
        assert(""@ =~= Seq::<char>::empty());
    }
    *command = translated;
}

/// Puts the help into the language of the locale.
pub fn localize(command: &mut CommandHelp, locale: &Locale)
    ensures
        final(command)@ == spoken(old(command)@, locale.chosen()),
{
    localize_with(command, locale.language())
}

/// Help that is in English is left as it is.
pub proof fn law_english_stays(command: HelpTree)
    ensures
        spoken(command, Language::English) == command,
{
}

/// A command without a text of its own keeps its help, and so does an argument.
pub proof fn law_what_has_no_translation_stays(command: HelpTree, path: Seq<char>)
    ensures
        command_text(command_texts(), path, 0) is None ==> chinese(command, path).about
            == command.about && chinese(command, path).after_help == command.after_help,
        forall|i: int|
            0 <= i < command.arguments.len() && argument_text(
                argument_texts(),
                #[trigger] command.arguments[i].id,
                0,
            ) is None ==> chinese(command, path).arguments[i] == command.arguments[i],
{
}

/// Translating changes no command's name and no argument's id, and neither
/// adds nor drops any.
pub proof fn law_translating_keeps_the_commands(command: HelpTree, path: Seq<char>)
    ensures
        chinese(command, path).name == command.name,
        chinese(command, path).subcommands.len() == command.subcommands.len(),
        chinese(command, path).arguments.len() == command.arguments.len(),
        forall|i: int|
            0 <= i < command.subcommands.len() ==> #[trigger] chinese(
                command,
                path,
            ).subcommands[i].name == command.subcommands[i].name,
        forall|i: int|
            0 <= i < command.arguments.len() ==> #[trigger] chinese(command, path).arguments[i].id
                == command.arguments[i].id,
{
    reveal_with_fuel(chinese, 2);
}

/// The name begins with the letters that stand for Chinese.
pub open spec fn begins_with_zh(name: Seq<char>) -> bool {
    name.len() >= 2 && name[0] == 'z' && name[1] == 'h'
}

/// The program's own variable decides, unless it is unset or blank; without it
/// `LC_ALL`, then `LC_MESSAGES`, then `LANG`, the first that is set.  The help
/// is Chinese exactly where what decides begins with `zh`.
pub proof fn law_the_first_variable_that_is_set_decides(locale: Locale)
    ensures
        locale.vshot_lang matches Some(wish) ==> lowered(trimmed(wish@)).len() > 0 ==> (
        locale.chosen() == Language::Chinese <==> begins_with_zh(lowered(trimmed(wish@)))),
        (locale.vshot_lang matches Some(wish) ==> lowered(trimmed(wish@)).len() == 0) ==> {
            &&& locale.lc_all matches Some(name) ==> (locale.chosen() == Language::Chinese
                <==> begins_with_zh(lowered(name@)))
            &&& locale.lc_all is None ==> (locale.lc_messages matches Some(name) ==> (
            locale.chosen() == Language::Chinese <==> begins_with_zh(lowered(name@))))
            &&& locale.lc_all is None && locale.lc_messages is None ==> (locale.lang matches Some(
                name,
            ) ==> (locale.chosen() == Language::Chinese <==> begins_with_zh(lowered(name@))))
        },
{
    reveal_strlit("zh");
    assert forall|name: Seq<char>| #[trigger] language_named(name) == Language::Chinese
        <==> begins_with_zh(name) by {
        if name.len() >= 2 {
            assert(name.subrange(0, 2) =~= seq![name[0], name[1]]);
            assert("zh"@ =~= seq!['z', 'h']);
            assert(name.subrange(0, 2)[0] == name[0] && name.subrange(0, 2)[1] == name[1]);
            if name.subrange(0, 2) == "zh"@ {
                assert("zh"@[0] == 'z' && "zh"@[1] == 'h');
            }
        }
    }
}

proof fn lemma_command_text(texts: Seq<CommandText>, path: Seq<char>, from: int, at: int)
    requires
        0 <= from <= at < texts.len(),
        texts[at].path@ == path,
        forall|j: int| from <= j < at ==> (#[trigger] texts[j]).path@ != path,
    ensures
        command_text(texts, path, from) == Some(texts[at]),
    decreases at - from,
{
    if from < at {
        assert(texts[from].path@ != path);
        lemma_command_text(texts, path, from + 1, at);
    }
}

proof fn lemma_argument_text(texts: Seq<ArgumentText>, id: Seq<char>, from: int, at: int)
    requires
        0 <= from <= at < texts.len(),
        texts[at].id@ == id,
        forall|j: int| from <= j < at ==> (#[trigger] texts[j]).id@ != id,
    ensures
        argument_text(texts, id, from) == Some(texts[at]),
    decreases at - from,
{
    if from < at {
        assert(texts[from].id@ != id);
        lemma_argument_text(texts, id, from + 1, at);
    }
}

/// A command is told the first text for its path: its summary always, and what
/// follows its help where the text has that.
pub proof fn law_a_command_is_told_its_own_text(command: HelpTree, path: Seq<char>, at: int)
    requires
        0 <= at < command_texts().len(),
        command_texts()[at].path@ == path,
        forall|j: int| 0 <= j < at ==> (#[trigger] command_texts()[j]).path@ != path,
    ensures
        chinese(command, path).about == Some(command_texts()[at].about@),
        command_texts()[at].after_help@.len() > 0 ==> chinese(command, path).after_help == Some(
            command_texts()[at].after_help@,
        ),
        command_texts()[at].after_help@.len() == 0 ==> chinese(command, path).after_help
            == command.after_help,
{
    lemma_command_text(command_texts(), path, 0, at);
}

/// An argument is told the first text for its id, in place of the help and of
/// the long help it has; what it does not have it does not get.
pub proof fn law_an_argument_is_told_its_own_text(
    command: HelpTree,
    path: Seq<char>,
    i: int,
    at: int,
)
    requires
        0 <= i < command.arguments.len(),
        0 <= at < argument_texts().len(),
        argument_texts()[at].id@ == command.arguments[i].id,
        forall|j: int|
            0 <= j < at ==> (#[trigger] argument_texts()[j]).id@ != command.arguments[i].id,
    ensures
        command.arguments[i].help is Some ==> chinese(command, path).arguments[i].help == Some(
            argument_texts()[at].help@,
        ),
        command.arguments[i].help is None ==> chinese(command, path).arguments[i].help is None,
        command.arguments[i].long_help is Some ==> chinese(command, path).arguments[i].long_help
            == Some(argument_texts()[at].help@),
        command.arguments[i].long_help is None ==> chinese(command, path).arguments[i].long_help
            is None,
{
    lemma_argument_text(argument_texts(), command.arguments[i].id, 0, at);
}

/// A subcommand is told the text for the names that lead to it, with a space
/// between them.
pub proof fn law_a_subcommand_is_told_the_text_for_its_path(
    command: HelpTree,
    path: Seq<char>,
    i: int,
)
    requires
        0 <= i < command.subcommands.len(),
    ensures
        chinese(command, Seq::empty()).subcommands[i] == chinese(
            command.subcommands[i],
            command.subcommands[i].name,
        ),
        path.len() > 0 ==> chinese(command, path).subcommands[i] == chinese(
            command.subcommands[i],
            path + seq![' '] + command.subcommands[i].name,
        ),
{
    reveal_strlit(" ");
    assert(" "@ =~= seq![' ']);
}

} // verus!
