//! Remembered defaults: what a command-line flag falls back to when it is not
//! given.
//!
//! They come from the `cli` section of a `config.json` that others write their
//! own sections into.  The file is a convenience: a missing or malformed one
//! reads as no defaults at all, and a bad value is worth as much as no value.
//! It falls back field by field to what is built in, and nothing here can fail
//! a capture.

use vstd::prelude::*;
use vstd::utf8::encode_utf8;

use crate::json::{trees, Json, Tree};
use crate::model::{compression_named, PngCompression};
use crate::path::{under, FilePath};
use crate::sections::{
    keys_of, law_only_expected_keys_count, only_value, outlined, plain_section, read_as, read_by,
    repeats, section_with, slices, sole_value, text_under, Form, FormView, OutlineView,
};
use crate::text::texts;

verus! {

/// The defaults a command-line flag falls back to when it is not given.
#[derive(Clone, Debug, Default)]
pub struct CliDefaults {
    /// `none` / `fastest` / `fast` / `balanced` / `high`.
    pub png_compression: Option<String>,
    /// `monitor`'s output name when none is given; `current` means the output
    /// under the pointer.
    pub monitor: Option<String>,
    pub long: LongDefaults,
    pub pin: PinDefaults,
    pub ocr: OcrDefaults,
    pub record: RecordDefaults,
    pub replay: ReplayDefaults,
}

/// Defaults for `vshot record`.
#[derive(Clone, Debug, Default)]
pub struct RecordDefaults {
    /// An empty string is the session's default source, a name is a PipeWire
    /// node; without it a recording is silent.
    pub mic: Option<String>,
    /// `h264`, `hevc` or `av1`.
    pub encoder: Option<String>,
    /// `auto`, `vaapi`, `vulkan` or `nvenc`.
    pub encoder_backend: Option<String>,
    /// 1 to 240.
    pub fps: Option<u32>,
    /// Whether a recording goes through the desktop portal.
    pub portal: Option<bool>,
    /// The windows a plain `record window` moves between.
    pub follow: Option<Vec<String>>,
    /// Whether a finished recording raises a notification; absent means yes.
    pub notify: Option<bool>,
}

/// Defaults for `vshot replay`.
#[derive(Clone, Debug, Default)]
pub struct ReplayDefaults {
    /// How many seconds of history the ring keeps, 1 to 3600.
    pub window: Option<u64>,
    pub encoder: Option<String>,
    pub encoder_backend: Option<String>,
    /// 1 to 240.
    pub fps: Option<u32>,
    /// The key-frame distance in seconds, 1 to 10.
    pub gop: Option<u64>,
    pub mic: Option<String>,
    pub portal: Option<bool>,
    pub follow: Option<Vec<String>>,
    /// Where a triggered save lands.
    pub save_dir: Option<String>,
    /// Whether a save raises a notification; absent means yes.
    pub notify: Option<bool>,
}

/// Defaults for text recognition.
#[derive(Clone, Debug, Default)]
pub struct OcrDefaults {
    /// `builtin` or `external`.
    pub engine: Option<String>,
    /// Only read when `engine` is `external`.
    pub external: Option<OcrExternalDefaults>,
    /// Whether a finished recognition raises a notification; absent means yes.
    pub notify: Option<bool>,
}

/// How to reach an OCR program the user runs themselves.
#[derive(Clone, Debug, Default)]
pub struct OcrExternalDefaults {
    /// The program and its arguments.
    pub command: Option<Vec<String>>,
    /// Send the PNG on stdin instead of naming a file.
    pub stdin: Option<bool>,
    /// Seconds to wait before giving up.
    pub timeout: Option<u64>,
}

/// Defaults for `vshot long`.
#[derive(Clone, Debug, Default)]
pub struct LongDefaults {
    pub notches: Option<u32>,
    pub max_height: Option<u32>,
    pub max_frames: Option<u32>,
    pub timeout: Option<u64>,
    pub ignore_top: Option<u32>,
    /// `auto` / `wlr` / `portal` / `uinput`.
    pub inject: Option<String>,
}

/// Defaults for `vshot pin`.
#[derive(Clone, Debug, Default)]
pub struct PinDefaults {
    pub density: Option<u32>,
}

/// Where the config file is: in `XDG_CONFIG_HOME`, or else in `HOME`'s
/// `.config`.
///
/// An empty `XDG_CONFIG_HOME` counts as not set; an empty `HOME` does not.
pub open spec fn config_file(xdg_config_home: Option<FilePath>, home: Option<FilePath>) -> Option<
    Seq<u8>,
> {
    let base = match (xdg_config_home, home) {
        (Some(base), _) if base@.len() > 0 => Some(base@),
        (_, Some(home)) => Some(under(home@, encode_utf8(".config"@))),
        _ => None,
    };
    match base {
        Some(base) => Some(
            under(under(base, encode_utf8("vshot"@)), encode_utf8("config.json"@)),
        ),
        None => None,
    }
}

/// The path of the config file; `None` when neither variable is set, in which
/// case there is nothing to read.
pub fn config_path(xdg_config_home: Option<FilePath>, home: Option<FilePath>) -> (path: Option<
    FilePath,
>)
    ensures
        match path {
            Some(path) => config_file(xdg_config_home, home) == Some(path@),
            None => config_file(xdg_config_home, home) is None,
        },
{
    let mut base: Option<FilePath> = None;
    if let Some(directory) = xdg_config_home {
        if directory.bytes.len() > 0 {
            base = Some(directory);
        }
    }
    let base = match base {
        Some(directory) => directory,
        None => match home {
            Some(home) => home.join(".config"),
            None => {
                return None;
            },
        },
    };
    Some(base.join("vshot").join("config.json"))
}

/// The compression the config file remembers, or `None` when it says nothing
/// usable.
pub open spec fn remembered_compression(name: Option<String>) -> Option<PngCompression> {
    match name {
        Some(name) => compression_named(name@),
        None => None,
    }
}

pub fn compression_default(defaults: &CliDefaults) -> (compression: Option<PngCompression>)
    ensures
        compression == remembered_compression(defaults.png_compression),
{
    match &defaults.png_compression {
        Some(name) => parse_compression(name.as_str()),
        None => None,
    }
}

/// The names are the ones `--png-compression` accepts.
pub fn parse_compression(name: &str) -> (compression: Option<PngCompression>)
    ensures
        compression == compression_named(name@),
{
    PngCompression::by_name(name)
}

// ---------------------------------------------------------------------------
// Reading the file
// ---------------------------------------------------------------------------
/// The text behind an optional string.
pub open spec fn text_of(text: Option<String>) -> Option<Seq<char>> {
    match text {
        Some(text) => Some(text@),
        None => None,
    }
}

/// The texts behind an optional list.
pub open spec fn list_of(list: Option<Vec<String>>) -> Option<Seq<Seq<char>>> {
    match list {
        Some(list) => Some(texts(list@)),
        None => None,
    }
}

/// A number that fits a `u32`.
pub open spec fn fits_u32(number: Option<u64>) -> Option<u32> {
    match number {
        Some(number) if number <= u32::MAX => Some(number as u32),
        _ => None,
    }
}

/// The texts a list is made of, unless something else is in it.
pub open spec fn all_texts(items: Option<Seq<Tree>>) -> Option<Seq<Seq<char>>> {
    match items {
        Some(items) => if forall|i: int|
            0 <= i < items.len() ==> (#[trigger] items[i]).text() is Some {
            Some(Seq::new(items.len(), |i: int| items[i].text()->Some_0))
        } else {
            None
        },
        None => None,
    }
}

/// A section of a document; one that is not there holds nothing.
pub open spec fn section(document: Tree, key: Seq<char>) -> Tree {
    match document.field(key) {
        Some(value) => value,
        None => Tree::Null,
    }
}

/// The fields of the `ocr` section.
pub open spec fn ocr_form() -> FormView {
    FormView::Section(
        seq![
            ("engine"@, FormView::Value),
            ("external"@, plain_section(seq!["command"@, "stdin"@, "timeout"@])),
            ("notify"@, FormView::Value),
        ],
    )
}

/// The fields of the `cli` section, in the order in which an array states them.
pub open spec fn cli_form() -> FormView {
    FormView::Section(
        seq![
            ("png-compression"@, FormView::Value),
            ("monitor"@, FormView::Value),
            (
                "long"@,
                plain_section(
                    seq![
                        "notches"@,
                        "max-height"@,
                        "max-frames"@,
                        "timeout"@,
                        "ignore-top"@,
                        "inject"@,
                    ],
                ),
            ),
            ("pin"@, plain_section(seq!["density"@])),
            ("ocr"@, ocr_form()),
            (
                "record"@,
                plain_section(
                    seq![
                        "mic"@,
                        "encoder"@,
                        "encoder-backend"@,
                        "fps"@,
                        "portal"@,
                        "follow"@,
                        "notify"@,
                    ],
                ),
            ),
            (
                "replay"@,
                plain_section(
                    seq![
                        "window"@,
                        "encoder"@,
                        "encoder-backend"@,
                        "fps"@,
                        "gop"@,
                        "mic"@,
                        "portal"@,
                        "follow"@,
                        "save-dir"@,
                        "notify"@,
                    ],
                ),
            ),
        ],
    )
}

/// The file as far as it is read: the `cli` section.
pub open spec fn file_form() -> FormView {
    FormView::Section(seq![("cli"@, cli_form())])
}

/// What can be read of a file; nothing of one that is malformed, or whose
/// fields cannot be told apart.
pub open spec fn document_of(text: Seq<char>) -> Tree {
    match only_value(text) {
        Some(value) => match read_as(value, file_form()) {
            Some(tree) => tree,
            None => Tree::Null,
        },
        None => Tree::Null,
    }
}

/// The document behind an optional one.
pub open spec fn tree_of(json: Option<&Json>) -> Tree {
    match json {
        Some(json) => json@,
        None => Tree::Null,
    }
}

impl LongDefaults {
    /// These are the defaults the section states.
    pub open spec fn stated(self, section: Tree) -> bool {
        &&& self.notches == fits_u32(section.unsigned_field("notches"@))
        &&& self.max_height == fits_u32(section.unsigned_field("max-height"@))
        &&& self.max_frames == fits_u32(section.unsigned_field("max-frames"@))
        &&& self.timeout == section.unsigned_field("timeout"@)
        &&& self.ignore_top == fits_u32(section.unsigned_field("ignore-top"@))
        &&& text_of(self.inject) == section.text_field("inject"@)
    }
}

impl PinDefaults {
    /// These are the defaults the section states.
    pub open spec fn stated(self, section: Tree) -> bool {
        self.density == fits_u32(section.unsigned_field("density"@))
    }
}

impl OcrExternalDefaults {
    /// These are the defaults the section states.
    pub open spec fn stated(self, section: Tree) -> bool {
        &&& list_of(self.command) == all_texts(section.items_field("command"@))
        &&& self.stdin == section.flag_field("stdin"@)
        &&& self.timeout == section.unsigned_field("timeout"@)
    }
}

impl OcrDefaults {
    /// These are the defaults the section states.
    pub open spec fn stated(self, section: Tree) -> bool {
        &&& text_of(self.engine) == section.text_field("engine"@)
        &&& match section.field("external"@) {
            Some(Tree::Object(members)) => self.external matches Some(external)
                && external.stated(Tree::Object(members)),
            _ => self.external is None,
        }
        &&& self.notify == section.flag_field("notify"@)
    }
}

impl RecordDefaults {
    /// These are the defaults the section states.
    pub open spec fn stated(self, section: Tree) -> bool {
        &&& text_of(self.mic) == section.text_field("mic"@)
        &&& text_of(self.encoder) == section.text_field("encoder"@)
        &&& text_of(self.encoder_backend) == section.text_field("encoder-backend"@)
        &&& self.fps == fits_u32(section.unsigned_field("fps"@))
        &&& self.portal == section.flag_field("portal"@)
        &&& list_of(self.follow) == all_texts(section.items_field("follow"@))
        &&& self.notify == section.flag_field("notify"@)
    }
}

impl ReplayDefaults {
    /// These are the defaults the section states.
    pub open spec fn stated(self, section: Tree) -> bool {
        &&& self.window == section.unsigned_field("window"@)
        &&& text_of(self.encoder) == section.text_field("encoder"@)
        &&& text_of(self.encoder_backend) == section.text_field("encoder-backend"@)
        &&& self.fps == fits_u32(section.unsigned_field("fps"@))
        &&& self.gop == section.unsigned_field("gop"@)
        &&& text_of(self.mic) == section.text_field("mic"@)
        &&& self.portal == section.flag_field("portal"@)
        &&& list_of(self.follow) == all_texts(section.items_field("follow"@))
        &&& text_of(self.save_dir) == section.text_field("save-dir"@)
        &&& self.notify == section.flag_field("notify"@)
    }
}

impl CliDefaults {
    /// These are the defaults the section states: each field by itself, so a
    /// value that cannot be used leaves the others as they are.
    pub open spec fn stated(self, cli: Tree) -> bool {
        &&& text_of(self.png_compression) == cli.text_field("png-compression"@)
        &&& text_of(self.monitor) == cli.text_field("monitor"@)
        &&& self.long.stated(section(cli, "long"@))
        &&& self.pin.stated(section(cli, "pin"@))
        &&& self.ocr.stated(section(cli, "ocr"@))
        &&& self.record.stated(section(cli, "record"@))
        &&& self.replay.stated(section(cli, "replay"@))
    }

    /// These are the defaults of a file with this text, or of no file.
    pub open spec fn read_from(self, text: Option<Seq<char>>) -> bool {
        match text {
            Some(text) => self.stated(section(document_of(text), "cli"@)),
            None => self.stated(Tree::Null),
        }
    }
}

/// A section of a document, for reading its fields one by one.
struct Section<'a> {
    json: Option<&'a Json>,
}

impl<'a> Section<'a> {
    spec fn view(&self) -> Tree {
        tree_of(self.json)
    }

    fn within(&self, key: &str) -> (inner: Section<'a>)
        ensures
            inner@ == section(self@, key@),
    {
        match self.json {
            Some(json) => Section { json: json.get(key) },
            None => Section { json: None },
        }
    }

    fn text(&self, key: &str) -> (text: Option<String>)
        ensures
            text_of(text) == self@.text_field(key@),
    {
        match self.json {
            Some(json) => match json.text_field(key) {
                Some(text) => Some(text.to_owned()),
                None => None,
            },
            None => None,
        }
    }

    fn flag(&self, key: &str) -> (flag: Option<bool>)
        ensures
            flag == self@.flag_field(key@),
    {
        match self.json {
            Some(json) => json.flag_field(key),
            None => None,
        }
    }

    fn long_number(&self, key: &str) -> (number: Option<u64>)
        ensures
            number == self@.unsigned_field(key@),
    {
        match self.json {
            Some(json) => json.unsigned_field(key),
            None => None,
        }
    }

    fn number(&self, key: &str) -> (number: Option<u32>)
        ensures
            number == fits_u32(self@.unsigned_field(key@)),
    {
        match self.long_number(key) {
            Some(number) => if number <= u32::MAX as u64 {
                Some(number as u32)
            } else {
                None
            },
            None => None,
        }
    }

    fn list(&self, key: &str) -> (list: Option<Vec<String>>)
        ensures
            list_of(list) == all_texts(self@.items_field(key@)),
    {
        let items = match self.json {
            Some(json) => match json.items_field(key) {
                Some(items) => items,
                None => {
                    return None;
                },
            },
            None => {
                return None;
            },
        };
        let ghost stated = trees(items@);
        let mut list: Vec<String> = Vec::new();
        while list.len() < items.len()
            invariant
                self@.items_field(key@) == Some(stated),
                stated == trees(items@),
                list@.len() <= items@.len(),
                forall|i: int|
                    0 <= i < list@.len() ==> (#[trigger] stated[i]).text() == Some(list@[i]@),
            decreases items.len() - list.len(),
        {
            let at: usize = list.len();
            assert(stated[at as int] == items@[at as int]@);
            match items[at].as_str() {
                Some(text) => {
                    list.push(text.to_owned());
                },
                None => {
                    assert(stated[at as int].text() is None);
                    return None;
                },
            }
        }
        assert(texts(list@) =~= Seq::new(stated.len(), |i: int| stated[i].text()->Some_0));
        Some(list)
    }

    fn long(&self) -> (defaults: LongDefaults)
        ensures
            defaults.stated(self@),
    {
        LongDefaults {
            notches: self.number("notches"),
            max_height: self.number("max-height"),
            max_frames: self.number("max-frames"),
            timeout: self.long_number("timeout"),
            ignore_top: self.number("ignore-top"),
            inject: self.text("inject"),
        }
    }

    fn ocr(&self) -> (defaults: OcrDefaults)
        ensures
            defaults.stated(self@),
    {
        let external = self.within("external");
        let external = match external.json {
            Some(Json::Object(_)) => Some(
                OcrExternalDefaults {
                    command: external.list("command"),
                    stdin: external.flag("stdin"),
                    timeout: external.long_number("timeout"),
                },
            ),
            _ => None,
        };
        OcrDefaults { engine: self.text("engine"), external, notify: self.flag("notify") }
    }

    fn record(&self) -> (defaults: RecordDefaults)
        ensures
            defaults.stated(self@),
    {
        RecordDefaults {
            mic: self.text("mic"),
            encoder: self.text("encoder"),
            encoder_backend: self.text("encoder-backend"),
            fps: self.number("fps"),
            portal: self.flag("portal"),
            follow: self.list("follow"),
            notify: self.flag("notify"),
        }
    }

    fn replay(&self) -> (defaults: ReplayDefaults)
        ensures
            defaults.stated(self@),
    {
        ReplayDefaults {
            window: self.long_number("window"),
            encoder: self.text("encoder"),
            encoder_backend: self.text("encoder-backend"),
            fps: self.number("fps"),
            gop: self.long_number("gop"),
            mic: self.text("mic"),
            portal: self.flag("portal"),
            follow: self.list("follow"),
            save_dir: self.text("save-dir"),
            notify: self.flag("notify"),
        }
    }

    fn cli(&self) -> (defaults: CliDefaults)
        ensures
            defaults.stated(self@),
    {
        CliDefaults {
            png_compression: self.text("png-compression"),
            monitor: self.text("monitor"),
            long: self.within("long").long(),
            pin: PinDefaults { density: self.within("pin").number("density") },
            ocr: self.within("ocr").ocr(),
            record: self.within("record").record(),
            replay: self.within("replay").replay(),
        }
    }
}

fn ocr_fields() -> (form: Form)
    ensures
        form@ == ocr_form(),
{
    let keys: [&str; 3] = ["command", "stdin", "timeout"];
    assert(slices(keys@) =~= seq!["command"@, "stdin"@, "timeout"@]);
    let external = section_with(&keys);
    let form = Form::Section(
        vec![
            ("engine".to_owned(), Form::Value),
            ("external".to_owned(), external),
            ("notify".to_owned(), Form::Value),
        ],
    );
    proof {
        reveal_with_fuel(Form::view, 3);
        assert(form@->Section_0 =~= ocr_form()->Section_0);
    }
    form
}

fn file_fields() -> (form: Form)
    ensures
        form@ == file_form(),
{
    let keys: [&str; 6] = ["notches", "max-height", "max-frames", "timeout", "ignore-top", "inject"];
    assert(slices(keys@) =~= seq!["notches"@, "max-height"@, "max-frames"@, "timeout"@, "ignore-top"@, "inject"@]);
    let long = section_with(&keys);
    let keys: [&str; 1] = ["density"];
    assert(slices(keys@) =~= seq!["density"@]);
    let pin = section_with(&keys);
    let keys: [&str; 7] = ["mic", "encoder", "encoder-backend", "fps", "portal", "follow", "notify"];
    assert(slices(keys@) =~= seq!["mic"@, "encoder"@, "encoder-backend"@, "fps"@, "portal"@, "follow"@, "notify"@]);
    let record = section_with(&keys);
    let keys: [&str; 10] = ["window", "encoder", "encoder-backend", "fps", "gop", "mic", "portal", "follow", "save-dir", "notify"];
    assert(slices(keys@) =~= seq!["window"@, "encoder"@, "encoder-backend"@, "fps"@, "gop"@, "mic"@, "portal"@, "follow"@, "save-dir"@, "notify"@]);
    let replay = section_with(&keys);
    let cli = Form::Section(
        vec![
            ("png-compression".to_owned(), Form::Value),
            ("monitor".to_owned(), Form::Value),
            ("long".to_owned(), long),
            ("pin".to_owned(), pin),
            ("ocr".to_owned(), ocr_fields()),
            ("record".to_owned(), record),
            ("replay".to_owned(), replay),
        ],
    );
    proof {
        reveal_with_fuel(Form::view, 3);
        assert(cli@->Section_0 =~= cli_form()->Section_0);
    }
    let form = Form::Section(vec![("cli".to_owned(), cli)]);
    assert(form@->Section_0 =~= file_form()->Section_0);
    form
}

/// The defaults that a document states in its `cli` section.
pub fn defaults_in(document: &Json) -> (defaults: CliDefaults)
    ensures
        defaults.stated(section(document@, "cli"@)),
{
    Section { json: document.get("cli") }.cli()
}

/// The remembered defaults: those of the file with this text, or of none.
pub fn load(text: Option<&str>) -> (defaults: CliDefaults)
    ensures
        defaults.read_from(
            match text {
                Some(text) => Some(text@),
                None => None,
            },
        ),
{
    if let Some(text) = text {
        if let Some(value) = sole_value(text) {
            if let Some(document) = read_by(value.as_str(), &file_fields()) {
                return defaults_in(&document);
            }
        }
    }
    Section { json: None }.cli()
}

/// What stands in the sections of others changes nothing: two files with the
/// same `cli` section, and only one each, remember the same.
pub proof fn law_the_sections_of_others_change_nothing(
    defaults: CliDefaults,
    a: Seq<char>,
    b: Seq<char>,
    left: Seq<(Seq<char>, Seq<char>)>,
    right: Seq<(Seq<char>, Seq<char>)>,
)
    requires
        only_value(a) matches Some(value) && outlined(value) == OutlineView::Object(left),
        only_value(b) matches Some(value) && outlined(value) == OutlineView::Object(right),
        !repeats(left, seq!["cli"@]),
        !repeats(right, seq!["cli"@]),
        text_under(left, "cli"@, 0) == text_under(right, "cli"@, 0),
    ensures
        defaults.read_from(Some(a)) == defaults.read_from(Some(b)),
{
    let fields = file_form()->Section_0;
    assert(keys_of(fields) =~= seq!["cli"@]);
    law_only_expected_keys_count(
        only_value(a)->Some_0,
        only_value(b)->Some_0,
        left,
        right,
        fields,
    );
}

/// A file that states the `cli` section twice remembers what no file remembers.
pub proof fn law_a_repeated_section_remembers_nothing(
    defaults: CliDefaults,
    text: Seq<char>,
    members: Seq<(Seq<char>, Seq<char>)>,
)
    requires
        only_value(text) matches Some(value) && outlined(value) == OutlineView::Object(members),
        repeats(members, seq!["cli"@]),
    ensures
        defaults.read_from(Some(text)) == defaults.read_from(None),
{
    assert(keys_of(file_form()->Section_0) =~= seq!["cli"@]);
}

/// A file that is missing or malformed remembers nothing.
pub proof fn law_a_malformed_file_remembers_nothing(defaults: CliDefaults, text: Option<Seq<char>>)
    requires
        defaults.read_from(text),
        text matches Some(text) ==> only_value(text) is None,
    ensures
        defaults.png_compression is None && defaults.monitor is None,
        defaults.long.notches is None && defaults.long.max_height is None
            && defaults.long.max_frames is None && defaults.long.timeout is None
            && defaults.long.ignore_top is None && defaults.long.inject is None,
        defaults.pin.density is None,
        defaults.ocr.engine is None && defaults.ocr.external is None && defaults.ocr.notify is None,
        defaults.record.mic is None && defaults.record.encoder is None
            && defaults.record.encoder_backend is None && defaults.record.fps is None
            && defaults.record.portal is None && defaults.record.follow is None
            && defaults.record.notify is None,
        defaults.replay.window is None && defaults.replay.encoder is None
            && defaults.replay.encoder_backend is None && defaults.replay.fps is None
            && defaults.replay.gop is None && defaults.replay.mic is None
            && defaults.replay.portal is None && defaults.replay.follow is None
            && defaults.replay.save_dir is None && defaults.replay.notify is None,
{
}

/// The value that stands under a key in a section of the document.
pub open spec fn entry(cli: Tree, section: Seq<char>, key: Seq<char>) -> Option<Tree> {
    match cli.field(section) {
        Some(section) => section.field(key),
        None => None,
    }
}

/// A remembered text is the one that stands there.
pub open spec fn is_text(setting: Option<String>, entry: Option<Tree>) -> bool {
    match setting {
        Some(text) => entry == Some(Tree::Text(text@)),
        None => !(entry matches Some(Tree::Text(_))),
    }
}

/// A remembered flag is the one that stands there.
pub open spec fn is_flag(setting: Option<bool>, entry: Option<Tree>) -> bool {
    match setting {
        Some(flag) => entry == Some(Tree::Bool(flag)),
        None => !(entry matches Some(Tree::Bool(_))),
    }
}

/// A remembered number is the one that stands there.
pub open spec fn is_number(setting: Option<u64>, entry: Option<Tree>) -> bool {
    match setting {
        Some(n) => entry matches Some(Tree::Number(number)) && number.unsigned == Some(n),
        None => entry matches Some(Tree::Number(number)) ==> number.unsigned is None,
    }
}

/// A remembered number is the one that stands there, as far as it is not too
/// large to be used.
pub open spec fn is_small_number(setting: Option<u32>, entry: Option<Tree>) -> bool {
    match setting {
        Some(n) => entry matches Some(Tree::Number(number)) && number.unsigned == Some(n as u64),
        None => entry matches Some(Tree::Number(number)) ==> (number.unsigned matches Some(n)
            ==> n > 0xffff_ffff),
    }
}

/// A remembered list holds the texts that stand there, in their order; one that
/// holds anything else is not remembered.
pub open spec fn is_list(setting: Option<Vec<String>>, entry: Option<Tree>) -> bool {
    match setting {
        Some(list) => entry matches Some(Tree::Array(items)) && items.len() == list@.len() && forall|
            i: int,
        |
            0 <= i < list@.len() ==> #[trigger] items[i] == Tree::Text(list@[i]@),
        None => entry matches Some(Tree::Array(items)) ==> exists|i: int|
            0 <= i < items.len() && !(#[trigger] items[i] matches Tree::Text(_)),
    }
}

proof fn lemma_list(setting: Option<Vec<String>>, entry: Option<Tree>)
    requires
        list_of(setting) == all_texts(
            match entry {
                Some(value) => value.items(),
                None => None,
            },
        ),
    ensures
        is_list(setting, entry),
{
    if let Some(list) = setting {
        if let Some(Tree::Array(items)) = entry {
            assert(all_texts(Some(items)) == Some(texts(list@)));
            assert(texts(list@).len() == items.len());
            assert forall|i: int| 0 <= i < list@.len() implies #[trigger] items[i] == Tree::Text(
                list@[i]@,
            ) by {
                assert(items[i].text() is Some);
                assert(texts(list@)[i] == items[i].text()->Some_0);
            }
        }
    }
}

/// Every setting of a scrolling capture and of a pin is what stands under its
/// own key of its own section, whatever stands beside it.
pub proof fn law_the_settings_of_a_long_capture_have_their_own_keys(
    defaults: CliDefaults,
    cli: Tree,
)
    requires
        defaults.stated(cli),
    ensures
        is_text(defaults.png_compression, cli.field("png-compression"@)),
        is_text(defaults.monitor, cli.field("monitor"@)),
        is_small_number(defaults.long.notches, entry(cli, "long"@, "notches"@)),
        is_small_number(defaults.long.max_height, entry(cli, "long"@, "max-height"@)),
        is_small_number(defaults.long.max_frames, entry(cli, "long"@, "max-frames"@)),
        is_number(defaults.long.timeout, entry(cli, "long"@, "timeout"@)),
        is_small_number(defaults.long.ignore_top, entry(cli, "long"@, "ignore-top"@)),
        is_text(defaults.long.inject, entry(cli, "long"@, "inject"@)),
        is_small_number(defaults.pin.density, entry(cli, "pin"@, "density"@)),
{
}

/// Every setting of a recording is what stands under its own key of the
/// `record` section.
pub proof fn law_the_settings_of_a_recording_have_their_own_keys(defaults: CliDefaults, cli: Tree)
    requires
        defaults.stated(cli),
    ensures
        is_text(defaults.record.mic, entry(cli, "record"@, "mic"@)),
        is_text(defaults.record.encoder, entry(cli, "record"@, "encoder"@)),
        is_text(defaults.record.encoder_backend, entry(cli, "record"@, "encoder-backend"@)),
        is_small_number(defaults.record.fps, entry(cli, "record"@, "fps"@)),
        is_flag(defaults.record.portal, entry(cli, "record"@, "portal"@)),
        is_list(defaults.record.follow, entry(cli, "record"@, "follow"@)),
        is_flag(defaults.record.notify, entry(cli, "record"@, "notify"@)),
{
    lemma_list(defaults.record.follow, entry(cli, "record"@, "follow"@));
}

/// Every setting of a replay is what stands under its own key of the `replay`
/// section.
pub proof fn law_the_settings_of_a_replay_have_their_own_keys(defaults: CliDefaults, cli: Tree)
    requires
        defaults.stated(cli),
    ensures
        is_number(defaults.replay.window, entry(cli, "replay"@, "window"@)),
        is_text(defaults.replay.encoder, entry(cli, "replay"@, "encoder"@)),
        is_text(defaults.replay.encoder_backend, entry(cli, "replay"@, "encoder-backend"@)),
        is_small_number(defaults.replay.fps, entry(cli, "replay"@, "fps"@)),
        is_number(defaults.replay.gop, entry(cli, "replay"@, "gop"@)),
        is_text(defaults.replay.mic, entry(cli, "replay"@, "mic"@)),
        is_flag(defaults.replay.portal, entry(cli, "replay"@, "portal"@)),
        is_list(defaults.replay.follow, entry(cli, "replay"@, "follow"@)),
        is_text(defaults.replay.save_dir, entry(cli, "replay"@, "save-dir"@)),
        is_flag(defaults.replay.notify, entry(cli, "replay"@, "notify"@)),
{
    lemma_list(defaults.replay.follow, entry(cli, "replay"@, "follow"@));
}

/// Every setting of text recognition is what stands under its own key of the
/// `ocr` section; those of a program of the user's stand one section deeper,
/// and are remembered exactly where that is a section.
pub proof fn law_the_settings_of_recognition_have_their_own_keys(defaults: CliDefaults, cli: Tree)
    requires
        defaults.stated(cli),
    ensures
        is_text(defaults.ocr.engine, entry(cli, "ocr"@, "engine"@)),
        is_flag(defaults.ocr.notify, entry(cli, "ocr"@, "notify"@)),
        defaults.ocr.external is Some <==> (entry(cli, "ocr"@, "external"@) is Some && entry(
            cli,
            "ocr"@,
            "external"@,
        )->Some_0 is Object),
        defaults.ocr.external matches Some(external) ==> {
            let section = entry(cli, "ocr"@, "external"@)->Some_0;
            &&& is_list(external.command, section.field("command"@))
            &&& is_flag(external.stdin, section.field("stdin"@))
            &&& is_number(external.timeout, section.field("timeout"@))
        },
{
    if let Some(external) = defaults.ocr.external {
        let section = entry(cli, "ocr"@, "external"@)->Some_0;
        lemma_list(external.command, section.field("command"@));
    }
}

/// The file is `vshot/config.json` in the directory that `XDG_CONFIG_HOME`
/// names; where that is not set or empty, in `.config` of the home directory;
/// and there is none where neither is set.
pub proof fn law_where_the_config_file_is(xdg: Option<FilePath>, home: Option<FilePath>)
    ensures
        xdg matches Some(xdg) ==> xdg@.len() > 0 && xdg@.last() != 47 ==> config_file(
            Some(xdg),
            home,
        ) == Some(xdg@ + seq![47u8] + encode_utf8("vshot"@) + seq![47u8] + encode_utf8("config.json"@)),
        home matches Some(home) ==> home@.len() > 0 && home@.last() != 47 && (xdg matches Some(xdg)
            ==> xdg@.len() == 0) ==> config_file(xdg, Some(home)) == Some(
            home@ + seq![47u8] + encode_utf8(".config"@) + seq![47u8] + encode_utf8("vshot"@)
                + seq![47u8] + encode_utf8("config.json"@),
        ),
        home is None && (xdg matches Some(xdg) ==> xdg@.len() == 0) ==> config_file(xdg, home)
            is None,
{
    lemma_ascii_name_is_not_a_directory();
    let (vshot, file, dot) = (
        encode_utf8("vshot"@),
        encode_utf8("config.json"@),
        encode_utf8(".config"@),
    );
    if let Some(xdg) = xdg {
        if xdg@.len() > 0 && xdg@.last() != 47 {
            assert(under(xdg@, vshot).last() == vshot.last());
            assert(under(under(xdg@, vshot), file) =~= xdg@ + seq![47u8] + vshot + seq![47u8]
                + file);
        }
    }
    if let Some(home) = home {
        if home@.len() > 0 && home@.last() != 47 {
            assert(under(home@, dot).last() == dot.last());
            assert(under(under(home@, dot), vshot).last() == vshot.last());
            assert(under(under(under(home@, dot), vshot), file) =~= home@ + seq![47u8] + dot
                + seq![47u8] + vshot + seq![47u8] + file);
        }
    }
}

proof fn lemma_ascii_name_is_not_a_directory()
    ensures
        encode_utf8("vshot"@).len() > 0 && encode_utf8("vshot"@).last() != 47,
        encode_utf8(".config"@).len() > 0 && encode_utf8(".config"@).last() != 47,
{
    reveal_strlit("vshot");
    reveal_strlit(".config");
    vstd::utf8::is_ascii_chars_encode_utf8("vshot"@);
    vstd::utf8::is_ascii_chars_encode_utf8(".config"@);
}

} // verus!
