//! What a recording or a replay is asked for, and what its settings fall back
//! to.

use vstd::prelude::*;
use vstd::utf8::encode_utf8;

use crate::config::{RecordDefaults, ReplayDefaults};
use crate::geometry::Rect;
use crate::path::FilePath;
use crate::text::{same_text, trim, trimmed};

verus! {

/// What is recorded.
#[derive(Clone, Debug, PartialEq, Eq)]
pub enum RecordTarget {
    /// One output by name, or `current`.
    Monitor(String),
    /// Every output, composed at its logical position.
    All,
    Region(RegionTarget),
    Window(WindowTarget),
}

/// A rectangle of one output.
#[derive(Clone, Copy, Debug, PartialEq, Eq)]
pub enum RegionTarget {
    Fixed(Rect),
    /// Dragged out on the frozen desktop.
    Pick,
}

/// One window.
#[derive(Clone, Debug, PartialEq, Eq)]
pub enum WindowTarget {
    /// The focused one.
    Active,
    /// The one that is clicked.
    Pick,
    /// The one this app id or title names.
    Filter(String),
}

/// Which microphone is recorded.
#[derive(Clone, Debug, PartialEq, Eq)]
pub enum MicChoice {
    /// The session's default source.
    Default,
    Device(String),
}

/// A video codec.
#[derive(Clone, Copy, Debug, PartialEq, Eq, Structural)]
pub enum VideoCodec {
    H264,
    Hevc,
    Av1,
}

/// A hardware encoder.
#[derive(Clone, Copy, Debug, PartialEq, Eq, Structural)]
pub enum EncoderBackend {
    /// VAAPI where it opens, else Vulkan, else NVENC.
    Auto,
    Vaapi,
    Vulkan,
    Nvenc,
}

impl VideoCodec {
    pub open spec fn name(self) -> Seq<char> {
        match self {
            VideoCodec::H264 => "h264"@,
            VideoCodec::Hevc => "hevc"@,
            VideoCodec::Av1 => "av1"@,
        }
    }

    pub open spec fn named(word: Seq<char>) -> Option<VideoCodec> {
        if word == "h264"@ {
            Some(VideoCodec::H264)
        } else if word == "hevc"@ {
            Some(VideoCodec::Hevc)
        } else if word == "av1"@ {
            Some(VideoCodec::Av1)
        } else {
            None
        }
    }

    /// The word that asks for this codec.
    pub fn word(self) -> (word: &'static str)
        ensures
            word@ == self.name(),
    {
        match self {
            VideoCodec::H264 => "h264",
            VideoCodec::Hevc => "hevc",
            VideoCodec::Av1 => "av1",
        }
    }

    /// The codec a word asks for.
    pub fn parse(word: &str) -> (codec: Option<VideoCodec>)
        ensures
            codec == Self::named(word@),
    {
        if same_text(word, "h264") {
            Some(VideoCodec::H264)
        } else if same_text(word, "hevc") {
            Some(VideoCodec::Hevc)
        } else if same_text(word, "av1") {
            Some(VideoCodec::Av1)
        } else {
            None
        }
    }
}

impl EncoderBackend {
    pub open spec fn name(self) -> Seq<char> {
        match self {
            EncoderBackend::Auto => "auto"@,
            EncoderBackend::Vaapi => "vaapi"@,
            EncoderBackend::Vulkan => "vulkan"@,
            EncoderBackend::Nvenc => "nvenc"@,
        }
    }

    pub open spec fn named(word: Seq<char>) -> Option<EncoderBackend> {
        if word == "auto"@ {
            Some(EncoderBackend::Auto)
        } else if word == "vaapi"@ {
            Some(EncoderBackend::Vaapi)
        } else if word == "vulkan"@ {
            Some(EncoderBackend::Vulkan)
        } else if word == "nvenc"@ {
            Some(EncoderBackend::Nvenc)
        } else {
            None
        }
    }

    /// The word that asks for this encoder.
    pub fn word(self) -> (word: &'static str)
        ensures
            word@ == self.name(),
    {
        match self {
            EncoderBackend::Auto => "auto",
            EncoderBackend::Vaapi => "vaapi",
            EncoderBackend::Vulkan => "vulkan",
            EncoderBackend::Nvenc => "nvenc",
        }
    }

    /// The encoder a word asks for.
    pub fn parse(word: &str) -> (backend: Option<EncoderBackend>)
        ensures
            backend == Self::named(word@),
    {
        if same_text(word, "auto") {
            Some(EncoderBackend::Auto)
        } else if same_text(word, "vaapi") {
            Some(EncoderBackend::Vaapi)
        } else if same_text(word, "vulkan") {
            Some(EncoderBackend::Vulkan)
        } else if same_text(word, "nvenc") {
            Some(EncoderBackend::Nvenc)
        } else {
            None
        }
    }
}

/// The word of a codec asks for that codec.
pub proof fn law_a_codecs_word_asks_for_it(codec: VideoCodec)
    ensures
        VideoCodec::named(codec.name()) == Some(codec),
{
    reveal_strlit("h264");
    reveal_strlit("hevc");
    reveal_strlit("av1");
    assert("h264"@[1] == '2' && "hevc"@[1] == 'e' && "av1"@[1] == 'v');
}

/// The word of an encoder asks for that encoder.
pub proof fn law_an_encoders_word_asks_for_it(backend: EncoderBackend)
    ensures
        EncoderBackend::named(backend.name()) == Some(backend),
{
    reveal_strlit("auto");
    reveal_strlit("vaapi");
    reveal_strlit("vulkan");
    reveal_strlit("nvenc");
    assert("auto"@[1] == 'u' && "vaapi"@[1] == 'a' && "vulkan"@[1] == 'u' && "nvenc"@[1] == 'v');
    assert("auto"@.len() == 4 && "vulkan"@.len() == 6);
}

/// A recording that is to be started.
#[derive(Clone, Debug, PartialEq, Eq)]
pub struct RecordRequest {
    pub target: RecordTarget,
    pub output: Option<FilePath>,
    pub fps: u32,
    pub cursor: bool,
    /// Seconds after which it stops on its own.
    pub duration: Option<u64>,
    pub encoder: VideoCodec,
    pub encoder_backend: EncoderBackend,
    pub portal: bool,
    pub mic: Option<MicChoice>,
    pub app_audio: bool,
    /// The windows the recording moves between.
    pub follow: Vec<String>,
}

/// What a [`RecordRequest`] asks for.
pub struct RecordPlan {
    pub target: RecordTarget,
    pub output: Option<FilePath>,
    pub fps: u32,
    pub cursor: bool,
    pub duration: Option<u64>,
    pub encoder: VideoCodec,
    pub encoder_backend: EncoderBackend,
    pub portal: bool,
    pub mic: Option<MicChoice>,
    pub app_audio: bool,
    pub follow: Seq<String>,
}

impl View for RecordRequest {
    type V = RecordPlan;

    open spec fn view(&self) -> RecordPlan {
        RecordPlan {
            target: self.target,
            output: self.output,
            fps: self.fps,
            cursor: self.cursor,
            duration: self.duration,
            encoder: self.encoder,
            encoder_backend: self.encoder_backend,
            portal: self.portal,
            mic: self.mic,
            app_audio: self.app_audio,
            follow: self.follow@,
        }
    }
}

/// A replay session that is to be started.
#[derive(Clone, Debug, PartialEq, Eq)]
pub struct ReplayRequest {
    pub target: RecordTarget,
    /// Seconds of history the ring keeps.
    pub window: u64,
    pub fps: u32,
    pub encoder: VideoCodec,
    pub encoder_backend: EncoderBackend,
    pub cursor: bool,
    pub mic: Option<MicChoice>,
    pub app_audio: bool,
    pub follow: Vec<String>,
    pub portal: bool,
    /// Where a save lands that names no path.
    pub save_dir: Option<FilePath>,
    /// Key-frame distance in seconds.
    pub gop_secs: u64,
}

/// What a [`ReplayRequest`] asks for.
pub struct ReplayPlan {
    pub target: RecordTarget,
    pub window: u64,
    pub fps: u32,
    pub encoder: VideoCodec,
    pub encoder_backend: EncoderBackend,
    pub cursor: bool,
    pub mic: Option<MicChoice>,
    pub app_audio: bool,
    pub follow: Seq<String>,
    pub portal: bool,
    pub save_dir: Option<Seq<u8>>,
    pub gop_secs: u64,
}

/// The bytes of a path that may be there.
pub open spec fn path_bytes(path: Option<FilePath>) -> Option<Seq<u8>> {
    match path {
        Some(path) => Some(path@),
        None => None,
    }
}

impl View for ReplayRequest {
    type V = ReplayPlan;

    open spec fn view(&self) -> ReplayPlan {
        ReplayPlan {
            target: self.target,
            window: self.window,
            fps: self.fps,
            encoder: self.encoder,
            encoder_backend: self.encoder_backend,
            cursor: self.cursor,
            mic: self.mic,
            app_audio: self.app_audio,
            follow: self.follow@,
            portal: self.portal,
            save_dir: path_bytes(self.save_dir),
            gop_secs: self.gop_secs,
        }
    }
}

// ---------------------------------------------------------------------------
// What the settings fall back to
// ---------------------------------------------------------------------------
pub const RECORD_FPS: u32 = 60;

pub const REPLAY_FPS: u32 = 30;

pub const MAX_FPS: u32 = 240;

pub const REPLAY_WINDOW: u64 = 30;

pub const MAX_REPLAY_WINDOW: u64 = 3600;

pub const REPLAY_GOP: u64 = 1;

pub const MAX_REPLAY_GOP: u64 = 10;

/// A remembered number, as long as it is between 1 and `most`; `otherwise`
/// where it is not or nothing is remembered.
pub open spec fn remembered_number(value: Option<int>, most: int, otherwise: int) -> int {
    match value {
        Some(value) => if 1 <= value <= most {
            value
        } else {
            otherwise
        },
        None => otherwise,
    }
}

pub open spec fn remembered_u32(value: Option<u32>, most: u32, otherwise: u32) -> u32 {
    remembered_number(
        match value {
            Some(value) => Some(value as int),
            None => None,
        },
        most as int,
        otherwise as int,
    ) as u32
}

pub open spec fn remembered_u64(value: Option<u64>, most: u64, otherwise: u64) -> u64 {
    remembered_number(
        match value {
            Some(value) => Some(value as int),
            None => None,
        },
        most as int,
        otherwise as int,
    ) as u64
}

fn number_u32(value: Option<u32>, most: u32, otherwise: u32) -> (number: u32)
    ensures
        number == remembered_u32(value, most, otherwise),
{
    match value {
        Some(value) => if 1 <= value && value <= most {
            value
        } else {
            otherwise
        },
        None => otherwise,
    }
}

fn number_u64(value: Option<u64>, most: u64, otherwise: u64) -> (number: u64)
    ensures
        number == remembered_u64(value, most, otherwise),
{
    match value {
        Some(value) => if 1 <= value && value <= most {
            value
        } else {
            otherwise
        },
        None => otherwise,
    }
}

/// The codec a remembered word asks for; H.264 where it asks for none.
pub open spec fn remembered_codec(word: Option<String>) -> VideoCodec {
    match word {
        Some(word) => match VideoCodec::named(word@) {
            Some(codec) => codec,
            None => VideoCodec::H264,
        },
        None => VideoCodec::H264,
    }
}

fn codec_of(word: &Option<String>) -> (codec: VideoCodec)
    ensures
        codec == remembered_codec(*word),
{
    match word {
        Some(word) => match VideoCodec::parse(word.as_str()) {
            Some(codec) => codec,
            None => VideoCodec::H264,
        },
        None => VideoCodec::H264,
    }
}

/// The encoder a remembered word asks for; `auto` where it asks for none.
pub open spec fn remembered_backend(word: Option<String>) -> EncoderBackend {
    match word {
        Some(word) => match EncoderBackend::named(word@) {
            Some(backend) => backend,
            None => EncoderBackend::Auto,
        },
        None => EncoderBackend::Auto,
    }
}

fn backend_of(word: &Option<String>) -> (backend: EncoderBackend)
    ensures
        backend == remembered_backend(*word),
{
    match word {
        Some(word) => match EncoderBackend::parse(word.as_str()) {
            Some(backend) => backend,
            None => EncoderBackend::Auto,
        },
        None => EncoderBackend::Auto,
    }
}

/// The microphone a name asks for: the default source where it is blank.
pub open spec fn microphone(name: String) -> MicChoice {
    if trimmed(name@).len() == 0 {
        MicChoice::Default
    } else {
        MicChoice::Device(name)
    }
}

/// The microphone a name asks for.
pub fn microphone_named(name: String) -> (mic: MicChoice)
    ensures
        mic == microphone(name),
{
    if trim(name.as_str()).as_str().is_empty() {
        MicChoice::Default
    } else {
        MicChoice::Device(name)
    }
}

/// The microphone a remembered name asks for; none where nothing is
/// remembered.
pub open spec fn remembered_mic(name: Option<String>) -> Option<MicChoice> {
    match name {
        Some(name) => Some(microphone(name)),
        None => None,
    }
}

fn mic_of(name: Option<String>) -> (mic: Option<MicChoice>)
    ensures
        mic == remembered_mic(name),
{
    match name {
        Some(name) => Some(microphone_named(name)),
        None => None,
    }
}

/// The windows a remembered list names.
pub open spec fn remembered_follow(list: Option<Vec<String>>) -> Seq<String> {
    match list {
        Some(list) => list@,
        None => Seq::empty(),
    }
}

fn follow_of(list: Option<Vec<String>>) -> (windows: Vec<String>)
    ensures
        windows@ == remembered_follow(list),
{
    match list {
        Some(list) => list,
        None => Vec::new(),
    }
}

/// Whether a recording goes through the portal.
pub fn default_portal(defaults: &RecordDefaults) -> (portal: bool)
    ensures
        portal == (defaults.portal == Some(true)),
{
    match defaults.portal {
        Some(portal) => portal,
        None => false,
    }
}

pub fn default_fps(defaults: &RecordDefaults) -> (fps: u32)
    ensures
        fps == remembered_u32(defaults.fps, MAX_FPS, RECORD_FPS),
{
    number_u32(defaults.fps, MAX_FPS, RECORD_FPS)
}

pub fn default_encoder(defaults: &RecordDefaults) -> (codec: VideoCodec)
    ensures
        codec == remembered_codec(defaults.encoder),
{
    codec_of(&defaults.encoder)
}

pub fn default_encoder_backend(defaults: &RecordDefaults) -> (backend: EncoderBackend)
    ensures
        backend == remembered_backend(defaults.encoder_backend),
{
    backend_of(&defaults.encoder_backend)
}

pub fn default_mic(name: Option<String>) -> (mic: Option<MicChoice>)
    ensures
        mic == remembered_mic(name),
{
    mic_of(name)
}

pub fn default_follow(list: Option<Vec<String>>) -> (windows: Vec<String>)
    ensures
        windows@ == remembered_follow(list),
{
    follow_of(list)
}

pub fn default_replay_portal(defaults: &ReplayDefaults) -> (portal: bool)
    ensures
        portal == (defaults.portal == Some(true)),
{
    match defaults.portal {
        Some(portal) => portal,
        None => false,
    }
}

pub fn default_replay_window(defaults: &ReplayDefaults) -> (seconds: u64)
    ensures
        seconds == remembered_u64(defaults.window, MAX_REPLAY_WINDOW, REPLAY_WINDOW),
{
    number_u64(defaults.window, MAX_REPLAY_WINDOW, REPLAY_WINDOW)
}

pub fn default_replay_fps(defaults: &ReplayDefaults) -> (fps: u32)
    ensures
        fps == remembered_u32(defaults.fps, MAX_FPS, REPLAY_FPS),
{
    number_u32(defaults.fps, MAX_FPS, REPLAY_FPS)
}

pub fn default_replay_gop(defaults: &ReplayDefaults) -> (seconds: u64)
    ensures
        seconds == remembered_u64(defaults.gop, MAX_REPLAY_GOP, REPLAY_GOP),
{
    number_u64(defaults.gop, MAX_REPLAY_GOP, REPLAY_GOP)
}

pub fn default_replay_encoder(defaults: &ReplayDefaults) -> (codec: VideoCodec)
    ensures
        codec == remembered_codec(defaults.encoder),
{
    codec_of(&defaults.encoder)
}

pub fn default_replay_encoder_backend(defaults: &ReplayDefaults) -> (backend: EncoderBackend)
    ensures
        backend == remembered_backend(defaults.encoder_backend),
{
    backend_of(&defaults.encoder_backend)
}

/// The directory a remembered name stands for.
pub open spec fn remembered_directory(name: Option<String>) -> Option<Seq<u8>> {
    match name {
        Some(name) => Some(encode_utf8(name@)),
        None => None,
    }
}

pub fn default_replay_save_dir(defaults: &ReplayDefaults) -> (directory: Option<FilePath>)
    ensures
        path_bytes(directory) == remembered_directory(defaults.save_dir),
{
    match &defaults.save_dir {
        Some(name) => Some(FilePath::from_text(name.as_str())),
        None => None,
    }
}

/// A number out of range, or a word that names nothing, is worth as much as no
/// value at all.
pub proof fn law_a_bad_setting_is_no_setting(number: u32, seconds: u64, word: String)
    ensures
        !(1 <= number <= MAX_FPS) ==> remembered_u32(Some(number), MAX_FPS, RECORD_FPS)
            == remembered_u32(None, MAX_FPS, RECORD_FPS) && remembered_u32(
            Some(number),
            MAX_FPS,
            REPLAY_FPS,
        ) == remembered_u32(None, MAX_FPS, REPLAY_FPS),
        !(1 <= seconds <= MAX_REPLAY_WINDOW) ==> remembered_u64(
            Some(seconds),
            MAX_REPLAY_WINDOW,
            REPLAY_WINDOW,
        ) == remembered_u64(None, MAX_REPLAY_WINDOW, REPLAY_WINDOW),
        !(1 <= seconds <= MAX_REPLAY_GOP) ==> remembered_u64(
            Some(seconds),
            MAX_REPLAY_GOP,
            REPLAY_GOP,
        ) == remembered_u64(None, MAX_REPLAY_GOP, REPLAY_GOP),
        VideoCodec::named(word@) is None ==> remembered_codec(Some(word)) == remembered_codec(None),
        EncoderBackend::named(word@) is None ==> remembered_backend(Some(word))
            == remembered_backend(None),
{
}

/// A word asks for a codec exactly when it is that codec's name, and no two
/// codecs or encoders share a name.
pub proof fn law_a_word_asks_for_the_one_it_names(word: Seq<char>)
    ensures
        VideoCodec::named(word) == Some(VideoCodec::H264) <==> word == "h264"@,
        VideoCodec::named(word) == Some(VideoCodec::Hevc) <==> word == "hevc"@,
        VideoCodec::named(word) == Some(VideoCodec::Av1) <==> word == "av1"@,
        EncoderBackend::named(word) == Some(EncoderBackend::Auto) <==> word == "auto"@,
        EncoderBackend::named(word) == Some(EncoderBackend::Vaapi) <==> word == "vaapi"@,
        EncoderBackend::named(word) == Some(EncoderBackend::Vulkan) <==> word == "vulkan"@,
        EncoderBackend::named(word) == Some(EncoderBackend::Nvenc) <==> word == "nvenc"@,
        VideoCodec::named(word) matches Some(codec) ==> codec.name() == word,
        EncoderBackend::named(word) matches Some(backend) ==> backend.name() == word,
{
    law_a_codecs_word_asks_for_it(VideoCodec::H264);
    law_a_codecs_word_asks_for_it(VideoCodec::Hevc);
    law_a_codecs_word_asks_for_it(VideoCodec::Av1);
    law_an_encoders_word_asks_for_it(EncoderBackend::Auto);
    law_an_encoders_word_asks_for_it(EncoderBackend::Vaapi);
    law_an_encoders_word_asks_for_it(EncoderBackend::Vulkan);
    law_an_encoders_word_asks_for_it(EncoderBackend::Nvenc);
}

/// What is remembered is used as it stands where it makes sense: a number in
/// range is that number, a word that names something is what it names, a list
/// of windows is that list and a directory is the bytes of its name; a blank
/// microphone is the default one and any other the device of that name.
pub proof fn law_a_good_setting_is_used_as_it_stands(
    number: u32,
    seconds: u64,
    word: String,
    list: Vec<String>,
)
    ensures
        1 <= number <= 240 ==> remembered_u32(Some(number), MAX_FPS, RECORD_FPS) == number
            && remembered_u32(Some(number), MAX_FPS, REPLAY_FPS) == number,
        1 <= seconds <= 3600 ==> remembered_u64(Some(seconds), MAX_REPLAY_WINDOW, REPLAY_WINDOW)
            == seconds,
        1 <= seconds <= 10 ==> remembered_u64(Some(seconds), MAX_REPLAY_GOP, REPLAY_GOP) == seconds,
        remembered_u32(None, MAX_FPS, RECORD_FPS) == 60,
        remembered_u32(None, MAX_FPS, REPLAY_FPS) == 30,
        remembered_u64(None, MAX_REPLAY_WINDOW, REPLAY_WINDOW) == 30,
        remembered_u64(None, MAX_REPLAY_GOP, REPLAY_GOP) == 1,
        remembered_codec(Some(word)).name() == word@ || remembered_codec(Some(word)) is H264,
        remembered_backend(Some(word)).name() == word@ || remembered_backend(Some(word)) is Auto,
        VideoCodec::named(word@) matches Some(codec) ==> remembered_codec(Some(word)) == codec,
        EncoderBackend::named(word@) matches Some(backend) ==> remembered_backend(Some(word))
            == backend,
        remembered_mic(Some(word)) == Some(MicChoice::Default) <==> trimmed(word@).len() == 0,
        remembered_mic(Some(word)) == Some(MicChoice::Device(word)) <==> trimmed(word@).len() > 0,
        remembered_mic(None) is None,
        remembered_follow(Some(list)) == list@,
        remembered_follow(None).len() == 0,
        remembered_directory(Some(word)) == Some(encode_utf8(word@)),
        remembered_directory(None) is None,
{
}

} // verus!
