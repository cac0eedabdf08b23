//! Requests to open something: what a list of addresses asks for, and how it is answered.

use vstd::prelude::*;
use vstd::utf8::*;
use crate::decimal::{integer_text, parse_usize, unsigned_of, unsigned_text};
use crate::text::{clone_opt, opt_text, same_text, starts_with, strip_prefix, texts};

verus! {

/// What is asked for besides paths.
#[derive(Debug, PartialEq, Eq)]
pub enum OpenRequestKind {
    FocusApp,
    DockMenuAction { index: usize },
    Setting { setting_path: Option<String> },
}

/// A request to open something.
#[derive(Debug, PartialEq, Eq)]
pub struct OpenRequest {
    pub kind: Option<OpenRequestKind>,
    pub open_paths: Vec<String>,
    pub diff_paths: Vec<[String; 2]>,
    pub diff_all: bool,
    pub dev_container: bool,
}

/// A request whose addresses have not been read.
#[derive(Debug, PartialEq, Eq)]
pub struct RawOpenRequest {
    pub urls: Vec<String>,
    pub diff_paths: Vec<[String; 2]>,
    pub diff_all: bool,
    pub dev_container: bool,
}

/// A request that makes no sense.
#[derive(Debug, PartialEq, Eq)]
pub enum OpenRequestError {
    /// The number of a dock menu entry is none.
    DockActionIndex(String),
}

#[verifier::ext_equal]
pub enum KindModel {
    FocusApp,
    DockMenuAction(int),
    Setting(Option<Seq<char>>),
}

impl View for OpenRequestKind {
    type V = KindModel;

    open spec fn view(&self) -> KindModel {
        match self {
            OpenRequestKind::FocusApp => KindModel::FocusApp,
            OpenRequestKind::DockMenuAction { index } => KindModel::DockMenuAction(*index as int),
            OpenRequestKind::Setting { setting_path } => KindModel::Setting(opt_text(*setting_path)),
        }
    }
}

pub open spec fn opt_kind(kind: Option<OpenRequestKind>) -> Option<KindModel> {
    match kind {
        Some(kind) => Some(kind@),
        None => None,
    }
}

impl Default for RawOpenRequest {
    fn default() -> (r: Self)
        ensures
            r.urls@.len() == 0,
            r.diff_paths@.len() == 0,
            !r.diff_all,
            !r.dev_container,
    {
        RawOpenRequest { urls: Vec::new(), diff_paths: Vec::new(), diff_all: false, dev_container: false }
    }
}

impl Default for OpenRequest {
    fn default() -> (r: Self)
        ensures
            r.kind is None,
            r.open_paths@.len() == 0,
            r.diff_paths@.len() == 0,
            !r.diff_all,
            !r.dev_container,
    {
        OpenRequest {
            kind: None,
            open_paths: Vec::new(),
            diff_paths: Vec::new(),
            diff_all: false,
            dev_container: false,
        }
    }
}

/// What a text stands for where `%` and two digits give a byte of UTF-8; nothing where the bytes
/// are no UTF-8.
pub uninterp spec fn percent_decoded(text: Seq<char>) -> Option<Seq<char>>;

/// Calls `urlencoding::decode`, and gives nothing where it fails. Its result has a name. A text
/// without `%` stands for itself.
#[verifier::external_body]
fn decode_percent(text: &str) -> (r: Option<String>)
    ensures
        opt_text(r) == percent_decoded(text@),
        !text@.contains('%') ==> opt_text(r) == Some(text@),
{
    urlencoding::decode(text).ok().map(|decoded| decoded.into_owned())
}

/// What one address asks for.
#[verifier::ext_equal]
pub enum UrlModel {
    DockMenuAction(Seq<char>),
    File(Seq<char>),
    FocusApp,
    Setting(Option<Seq<char>>),
    Unknown,
}

/// Reads an address.
pub open spec fn url_of(url: Seq<char>) -> UrlModel {
    if "zed-dock-action://"@.is_prefix_of(url) {
        UrlModel::DockMenuAction(url.skip("zed-dock-action://"@.len() as int))
    } else if "file://"@.is_prefix_of(url) {
        UrlModel::File(url.skip("file://"@.len() as int))
    } else if "zed://file"@.is_prefix_of(url) {
        UrlModel::File(url.skip("zed://file"@.len() as int))
    } else if url == "zed://"@ || url == "zed://open"@ || url == "zed://open/"@ {
        UrlModel::FocusApp
    } else if url == "zed://settings"@ || url == "zed://settings/"@ {
        UrlModel::Setting(None)
    } else if "zed://settings/"@.is_prefix_of(url) {
        UrlModel::Setting(Some(url.skip("zed://settings/"@.len() as int)))
    } else {
        UrlModel::Unknown
    }
}

#[verifier::ext_equal]
pub struct AskedModel {
    pub kind: Option<KindModel>,
    pub open_paths: Seq<Seq<char>>,
}

/// What is asked for once one more address has been read. A file whose name cannot be decoded, and
/// an unknown address, are passed over; an entry of the dock menu that is no number is an error.
pub open spec fn asked_with(asked: AskedModel, url: Seq<char>) -> Result<AskedModel, Seq<char>> {
    match url_of(url) {
        UrlModel::DockMenuAction(number) => match unsigned_of(number, usize::MAX as nat) {
            Some(index) => Ok(AskedModel { kind: Some(KindModel::DockMenuAction(index as int)), ..asked }),
            None => Err(number),
        },
        UrlModel::File(name) => match percent_decoded(name) {
            Some(path) => Ok(AskedModel { open_paths: asked.open_paths.push(path), ..asked }),
            None => Ok(asked),
        },
        UrlModel::FocusApp => Ok(AskedModel { kind: Some(KindModel::FocusApp), ..asked }),
        UrlModel::Setting(path) => Ok(AskedModel { kind: Some(KindModel::Setting(path)), ..asked }),
        UrlModel::Unknown => Ok(asked),
    }
}

/// What a list of addresses asks for, or the first error in it.
pub open spec fn asked_for(urls: Seq<Seq<char>>) -> Result<AskedModel, Seq<char>>
    decreases urls.len(),
{
    if urls.len() == 0 {
        Ok(AskedModel { kind: None, open_paths: Seq::empty() })
    } else {
        match asked_for(urls.drop_last()) {
            Ok(asked) => asked_with(asked, urls.last()),
            Err(number) => Err(number),
        }
    }
}

proof fn lemma_nonsense_stays(urls: Seq<Seq<char>>, n: int)
    requires
        0 <= n <= urls.len(),
        asked_for(urls.take(n)) is Err,
    ensures
        asked_for(urls) == asked_for(urls.take(n)),
    decreases urls.len() - n,
{
    if n < urls.len() {
        assert(urls.take(n + 1).drop_last() =~= urls.take(n));
        lemma_nonsense_stays(urls, n + 1);
    } else {
        assert(urls.take(n) =~= urls);
    }
}

pub open spec fn asked_model(request: OpenRequest) -> AskedModel {
    AskedModel { kind: opt_kind(request.kind), open_paths: texts(request.open_paths@) }
}

impl OpenRequest {
    /// Whether nothing is asked for but the program's window.
    pub fn is_focus_app_only(&self) -> (r: bool)
        ensures
            r == (opt_kind(self.kind) == Some(KindModel::FocusApp) && self.open_paths@.len() == 0
                && self.diff_paths@.len() == 0),
    {
        let focus = match self.kind {
            Some(OpenRequestKind::FocusApp) => true,
            _ => false,
        };
        focus && self.open_paths.len() == 0 && self.diff_paths.len() == 0
    }

    /// Adds the path that an address was decoded to, if it could be.
    pub fn add_decoded(&mut self, decoded: Option<String>)
        ensures
            asked_model(*final(self)) == match opt_text(decoded) {
                Some(path) => AskedModel {
                    open_paths: asked_model(*old(self)).open_paths.push(path),
                    ..asked_model(*old(self))
                },
                None => asked_model(*old(self)),
            },
            final(self).diff_paths == old(self).diff_paths,
            final(self).diff_all == old(self).diff_all,
            final(self).dev_container == old(self).dev_container,
    {
        if let Some(path) = decoded {
            let ghost before = self.open_paths@;
            let ghost new = path@;
            self.open_paths.push(path);
            assert(texts(self.open_paths@) =~= texts(before).push(new));
        }
    }

    /// Reads the addresses of a request.
    pub fn parse(request: RawOpenRequest) -> (r: Result<OpenRequest, OpenRequestError>)
        ensures
            match asked_for(texts(request.urls@)) {
                Ok(asked) => r matches Ok(this) && {
                    &&& asked_model(this) == asked
                    &&& this.diff_paths == request.diff_paths
                    &&& this.diff_all == request.diff_all
                    &&& this.dev_container == request.dev_container
                },
                Err(number) => r matches Err(OpenRequestError::DockActionIndex(shown)) && shown@ == number,
            },
    {
        let ghost urls = texts(request.urls@);
        let mut this = OpenRequest {
            kind: None,
            open_paths: Vec::new(),
            diff_paths: request.diff_paths,
            diff_all: request.diff_all,
            dev_container: request.dev_container,
        };
        let mut i: usize = 0;
        assert(texts(this.open_paths@) =~= Seq::empty());
        assert(urls.take(0) =~= Seq::empty());
        while i < request.urls.len()
            invariant
                i <= request.urls@.len(),
                urls == texts(request.urls@),
                asked_for(urls.take(i as int)) == Ok::<AskedModel, Seq<char>>(asked_model(this)),
                this.diff_paths == request.diff_paths,
                this.diff_all == request.diff_all,
                this.dev_container == request.dev_container,
            decreases request.urls@.len() - i,
        {
            let url = request.urls[i].as_str();
            proof {
                assert(urls.take(i + 1).drop_last() =~= urls.take(i as int));
                assert(urls.take(i + 1).last() == url@);
            }
            if let Some(number) = strip_prefix(url, "zed-dock-action://") {
                match parse_usize(number.as_str()) {
                    Some(index) => {
                        this.kind = Some(OpenRequestKind::DockMenuAction { index });
                    },
                    None => {
                        proof {
                            lemma_nonsense_stays(urls, i + 1);
                        }
                        return Err(OpenRequestError::DockActionIndex(number));
                    },
                }
            } else if let Some(file) = strip_prefix(url, "file://") {
                let decoded = decode_percent(file.as_str());
                this.add_decoded(decoded);
            } else if let Some(file) = strip_prefix(url, "zed://file") {
                let decoded = decode_percent(file.as_str());
                this.add_decoded(decoded);
            } else if same_text(url, "zed://") || same_text(url, "zed://open") || same_text(url, "zed://open/") {
                this.kind = Some(OpenRequestKind::FocusApp);
            } else if same_text(url, "zed://settings") || same_text(url, "zed://settings/") {
                this.kind = Some(OpenRequestKind::Setting { setting_path: None });
            } else if let Some(path) = strip_prefix(url, "zed://settings/") {
                this.kind = Some(OpenRequestKind::Setting { setting_path: Some(path) });
            }
            assert(asked_for(urls.take(i + 1)) == Ok::<AskedModel, Seq<char>>(asked_model(this)));
            i += 1;
        }
        assert(urls.take(i as int) =~= urls);
        Ok(this)
    }
}

/// What a request is answered with.
#[derive(Debug, PartialEq, Eq)]
pub enum OpenAnswer {
    /// Bring a window to the front, or open one.
    FocusOrOpen,
    PerformDockAction(usize),
    OpenSettings,
    OpenSettingsAt(String),
    /// Open the paths, in a container where that is asked for.
    OpenPaths { in_dev_container: bool },
    Nothing,
}

#[verifier::ext_equal]
pub enum AnswerModel {
    FocusOrOpen,
    PerformDockAction(int),
    OpenSettings,
    OpenSettingsAt(Seq<char>),
    OpenPaths(bool),
    Nothing,
}

impl View for OpenAnswer {
    type V = AnswerModel;

    open spec fn view(&self) -> AnswerModel {
        match self {
            OpenAnswer::FocusOrOpen => AnswerModel::FocusOrOpen,
            OpenAnswer::PerformDockAction(index) => AnswerModel::PerformDockAction(*index as int),
            OpenAnswer::OpenSettings => AnswerModel::OpenSettings,
            OpenAnswer::OpenSettingsAt(path) => AnswerModel::OpenSettingsAt(path@),
            OpenAnswer::OpenPaths { in_dev_container } => AnswerModel::OpenPaths(*in_dev_container),
            OpenAnswer::Nothing => AnswerModel::Nothing,
        }
    }
}

/// Paths are opened only where nothing else is asked for.
pub open spec fn answer_to(kind: Option<KindModel>, any_paths: bool, dev_container: bool) -> AnswerModel {
    match kind {
        Some(KindModel::FocusApp) => AnswerModel::FocusOrOpen,
        Some(KindModel::DockMenuAction(index)) => AnswerModel::PerformDockAction(index),
        Some(KindModel::Setting(None)) => AnswerModel::OpenSettings,
        Some(KindModel::Setting(Some(path))) => AnswerModel::OpenSettingsAt(path),
        None => if any_paths {
            AnswerModel::OpenPaths(dev_container)
        } else {
            AnswerModel::Nothing
        },
    }
}

/// Decides how a request is answered.
pub fn handle_open_request(request: &OpenRequest) -> (r: OpenAnswer)
    ensures
        r@ == answer_to(
            opt_kind(request.kind),
            request.open_paths@.len() > 0 || request.diff_paths@.len() > 0,
            request.dev_container,
        ),
{
    match &request.kind {
        Some(OpenRequestKind::FocusApp) => OpenAnswer::FocusOrOpen,
        Some(OpenRequestKind::DockMenuAction { index }) => OpenAnswer::PerformDockAction(*index),
        Some(OpenRequestKind::Setting { setting_path }) => match setting_path {
            Some(path) => OpenAnswer::OpenSettingsAt(path.clone()),
            None => OpenAnswer::OpenSettings,
        },
        None => if request.open_paths.len() > 0 || request.diff_paths.len() > 0 {
            OpenAnswer::OpenPaths { in_dev_container: request.dev_container }
        } else {
            OpenAnswer::Nothing
        },
    }
}

/// What the program does first: the request that it was started with, if there is one that asks for
/// more than the program itself; else it restores its tabs.
pub fn restores_at_start(request: &Option<OpenRequest>) -> (r: bool)
    ensures
        r == match *request {
            Some(request) => opt_kind(request.kind) == Some(KindModel::FocusApp) && request.open_paths@.len() == 0
                && request.diff_paths@.len() == 0,
            None => true,
        },
{
    match request {
        Some(request) => request.is_focus_app_only(),
        None => true,
    }
}

/// The address of an argument of the command line: that of the file where there is one; else the
/// argument itself where it is an address, and a file of that name where it is not.
pub open spec fn address_of_argument(argument: Seq<char>, canonical: Option<Seq<char>>) -> Seq<char> {
    match canonical {
        Some(path) => "file://"@ + path,
        None => if "file://"@.is_prefix_of(argument) || "zed://"@.is_prefix_of(argument)
            || "zed-cli://"@.is_prefix_of(argument) || "ssh://"@.is_prefix_of(argument)
            || "zed-link://"@.is_prefix_of(argument) {
            argument
        } else {
            "file://"@ + argument
        },
    }
}

/// The address of an argument of the command line.
pub fn parse_url_arg(argument: &str, canonical: Option<&str>) -> (r: String)
    ensures
        r@ == address_of_argument(
            argument@,
            match canonical {
                Some(path) => Some(path@),
                None => None,
            },
        ),
{
    match canonical {
        Some(path) => "file://".to_owned().concat(path),
        None => if starts_with(argument, "file://") || starts_with(argument, "zed://") || starts_with(
            argument,
            "zed-cli://",
        ) || starts_with(argument, "ssh://") || starts_with(argument, "zed-link://") {
            argument.to_owned()
        } else {
            "file://".to_owned().concat(argument)
        },
    }
}

/// What is sent to the instance that is already running: the entry of the dock menu, else the first
/// argument as an address, else that a window is wanted.
pub open spec fn address_for_instance(
    dock_action: Option<usize>,
    arguments: Seq<Seq<char>>,
    canonical: Option<Seq<char>>,
) -> Seq<char> {
    match dock_action {
        Some(index) => "zed-dock-action://"@ + integer_text(index as int),
        None => if arguments.len() == 0 {
            "zed://open"@
        } else {
            let first = arguments[0];
            if "zed://"@.is_prefix_of(first) || "http://"@.is_prefix_of(first) || "https://"@.is_prefix_of(first)
                || "file://"@.is_prefix_of(first) || "ssh://"@.is_prefix_of(first) {
                first
            } else {
                match canonical {
                    Some(path) => "file://"@ + path,
                    None => "file://"@ + first,
                }
            }
        },
    }
}

/// What is sent to the instance that is already running. The path is that of the first argument,
/// where there is such a file.
pub fn send_args_to_instance(dock_action: Option<usize>, arguments: &Vec<String>, canonical: Option<&str>) -> (r:
    String)
    ensures
        r@ == address_for_instance(
            dock_action,
            texts(arguments@),
            match canonical {
                Some(path) => Some(path@),
                None => None,
            },
        ),
{
    if let Some(index) = dock_action {
        let number = unsigned_text(index as u64);
        return "zed-dock-action://".to_owned().concat(number.as_str());
    }
    assert(texts(arguments@).len() == arguments@.len());
    if arguments.len() == 0 {
        return "zed://open".to_owned();
    }
    assert(texts(arguments@)[0] == arguments@[0]@);
    let first = arguments[0].as_str();
    if starts_with(first, "zed://") || starts_with(first, "http://") || starts_with(first, "https://")
        || starts_with(first, "file://") || starts_with(first, "ssh://") {
        return first.to_owned();
    }
    match canonical {
        Some(path) => "file://".to_owned().concat(path),
        None => "file://".to_owned().concat(first),
    }
}

/// A dock menu entry that one instance sends is what the other reads.
pub proof fn lemma_dock_action_received(index: usize)
    ensures
        asked_for(seq![address_for_instance(Some(index), Seq::empty(), None)]) == Ok::<AskedModel, Seq<char>>(
            AskedModel { kind: Some(KindModel::DockMenuAction(index as int)), open_paths: Seq::empty() },
        ),
{
    let prefix = "zed-dock-action://"@;
    let number = integer_text(index as int);
    let url = prefix + number;
    assert(prefix.is_prefix_of(url));
    assert(url.skip(prefix.len() as int) =~= number);
    crate::decimal::lemma_unsigned_round_trip(index as nat, usize::MAX as nat);
    let urls = seq![address_for_instance(Some(index), Seq::empty(), None)];
    assert(urls.drop_last() =~= Seq::empty());
    assert(urls.last() == url);
    assert(asked_for(urls.drop_last()) == Ok::<AskedModel, Seq<char>>(AskedModel { kind: None, open_paths: Seq::empty() }));
}

/// What the first instance does, and what another does.
#[derive(Debug, Clone, Copy, PartialEq, Eq, Structural)]
pub enum InstanceRole {
    /// Take the requests of others.
    Listen,
    /// Hand the request to the first one.
    Send,
    /// Nothing: the request is for this one.
    Stay,
}

/// Decides what an instance does; only the first one goes on.
pub fn handle_single_instance(first: bool, foreground: bool) -> (r: (InstanceRole, bool))
    ensures
        r.1 == first,
        r.0 == if first {
            InstanceRole::Listen
        } else if foreground {
            InstanceRole::Stay
        } else {
            InstanceRole::Send
        },
{
    if first {
        (InstanceRole::Listen, true)
    } else if foreground {
        (InstanceRole::Stay, false)
    } else {
        (InstanceRole::Send, false)
    }
}

/// The text that bytes stand for where what is no UTF-8 is replaced by U+FFFD.
pub uninterp spec fn lossy_text(bytes: Seq<u8>) -> Seq<char>;

/// Calls `String::from_utf8_lossy`. Its result has a name: how many characters stand for bytes that
/// are no UTF-8 is not stated. UTF-8 gives the text that it encodes.
#[verifier::external_body]
fn read_lossy(bytes: &Vec<u8>) -> (r: String)
    ensures
        r@ == lossy_text(bytes@),
        valid_utf8(bytes@) ==> r@ == decode_utf8(bytes@),
{
    String::from_utf8_lossy(bytes).into_owned()
}

/// The bytes of a message, which end before the first zero.
pub open spec fn bytes_before_zero(buffer: Seq<u8>) -> Option<Seq<u8>> {
    match buffer.index_of_first(0u8) {
        Some(end) => Some(buffer.take(end)),
        None => None,
    }
}

/// The message in a buffer; nothing where no zero ends it.
pub open spec fn message_in(buffer: Seq<u8>) -> Option<Seq<char>> {
    match bytes_before_zero(buffer) {
        Some(bytes) => Some(
            if valid_utf8(bytes) {
                decode_utf8(bytes)
            } else {
                lossy_text(bytes)
            },
        ),
        None => None,
    }
}

proof fn lemma_first_zero(buffer: Seq<u8>, end: int)
    requires
        0 <= end < buffer.len(),
        buffer[end] == 0,
        forall|i: int| 0 <= i < end ==> #[trigger] buffer[i] != 0,
    ensures
        bytes_before_zero(buffer) == Some(buffer.take(end)),
{
    buffer.index_of_first_ensures(0u8);
    assert(buffer.contains(0u8));
    let first = buffer.index_of_first(0u8)->0;
    assert(buffer[first] == 0);
    if end < first {
        assert(buffer[end] != 0);
    }
}

proof fn lemma_scalar_without_zero(scalar: u32)
    requires
        is_scalar(scalar),
        scalar != 0,
    ensures
        forall|i: int| 0 <= i < encode_scalar(scalar).len() ==> #[trigger] encode_scalar(scalar)[i] != 0,
{
    if has_width_1_encoding(scalar) {
        assert((scalar & 0x7F) as u8 != 0) by (bit_vector)
            requires
                0 < scalar <= 0x7F,
        ;
    }
    let two = ((scalar >> 6) & 0x1F) as u8;
    let three = ((scalar >> 12) & 0x0F) as u8;
    let four = ((scalar >> 18) & 0x7) as u8;
    let last = (scalar & 0x3F) as u8;
    let second_last = ((scalar >> 6) & 0x3F) as u8;
    let third_last = ((scalar >> 12) & 0x3F) as u8;
    assert(0xC0 | two != 0 && 0xE0 | three != 0 && 0xF0 | four != 0 && 0x80 | last != 0 && 0x80 | second_last != 0
        && 0x80 | third_last != 0) by (bit_vector);
}

proof fn lemma_text_without_zero(text: Seq<char>)
    requires
        !text.contains('\0'),
    ensures
        forall|i: int| 0 <= i < encode_utf8(text).len() ==> #[trigger] encode_utf8(text)[i] != 0,
    decreases text.len(),
{
    if text.len() > 0 {
        let rest = text.drop_first();
        let first = text[0];
        assert(text.contains(first));
        char_is_scalar(first);
        char_u32_cast(first, first as u32);
        lemma_scalar_without_zero(first as u32);
        assert(!rest.contains('\0')) by {
            assert forall|i: int| 0 <= i < rest.len() implies rest[i] != '\0' by {
                assert(text.contains(text[i + 1]));
            }
        }
        lemma_text_without_zero(rest);
        let head = encode_scalar(first as u32);
        assert forall|i: int| 0 <= i < encode_utf8(text).len() implies #[trigger] encode_utf8(text)[i] != 0 by {
            if i < head.len() {
                assert(encode_utf8(text)[i] == head[i]);
            } else {
                assert(encode_utf8(text)[i] == encode_utf8(rest)[i - head.len()]);
            }
        }
    }
}

/// A text that one instance writes is what the other reads, where it holds no zero and the buffer
/// goes on with one behind it.
pub proof fn lemma_message_received(text: Seq<char>, behind: Seq<u8>)
    requires
        !text.contains('\0'),
        behind.len() > 0,
        behind[0] == 0,
    ensures
        message_in(encode_utf8(text) + behind) == Some(text),
{
    let bytes = encode_utf8(text);
    let buffer = bytes + behind;
    lemma_text_without_zero(text);
    assert forall|i: int| 0 <= i < bytes.len() implies #[trigger] buffer[i] != 0 by {
        assert(buffer[i] == bytes[i]);
    }
    lemma_first_zero(buffer, bytes.len() as int);
    assert(buffer.take(bytes.len() as int) =~= bytes);
    encode_utf8_valid_utf8(text);
    encode_utf8_decode_utf8(text);
}

/// The message in what was read from the pipe; nothing where no zero ends it.
pub fn retrieve_message_from_pipe(buffer: &Vec<u8>) -> (r: Option<String>)
    ensures
        opt_text(r) == message_in(buffer@),
{
    match message_bytes(buffer) {
        Some(bytes) => Some(read_lossy(&bytes)),
        None => None,
    }
}

/// The bytes of a message up to its terminating zero; nothing where there is none.
pub fn message_bytes(buffer: &Vec<u8>) -> (r: Option<Vec<u8>>)
    ensures
        (match r {
            Some(message) => Some(message@),
            None => None,
        }) == bytes_before_zero(buffer@),
{
    let mut message: Vec<u8> = Vec::new();
    let mut i: usize = 0;
    while i < buffer.len()
        invariant
            i <= buffer@.len(),
            message@ == buffer@.take(i as int),
            forall|j: int| 0 <= j < i ==> #[trigger] buffer@[j] != 0,
        decreases buffer@.len() - i,
    {
        if buffer[i] == 0 {
            proof {
                lemma_first_zero(buffer@, i as int);
            }
            return Some(message);
        }
        message.push(buffer[i]);
        assert(message@ =~= buffer@.take(i + 1));
        i += 1;
    }
    proof {
        buffer@.index_of_first_ensures(0u8);
    }
    None
}

/// A path with a row and a column to go to.
#[derive(Debug, PartialEq, Eq)]
pub struct PathWithPosition {
    pub path: String,
    pub row: Option<u32>,
    pub column: Option<u32>,
}

/// What is known of a path that was given as a text: how it reads with a position, whether the text
/// itself names a file, and the full path of the place.
#[derive(Debug, PartialEq, Eq)]
pub struct GivenPath {
    pub text: String,
    pub parsed: PathWithPosition,
    pub text_is_file: bool,
    pub canonical_text: Option<String>,
    pub canonical_parsed: Option<String>,
}

/// Away from Windows a text that names a file is that file, even where its end reads as a position.
pub open spec fn is_plain_file(given: GivenPath, windows: bool) -> bool {
    !windows && given.parsed.row is Some && given.parsed.path@ != given.text@ && given.text_is_file
}

#[verifier::ext_equal]
pub struct PositionModel {
    pub path: Seq<char>,
    pub row: Option<u32>,
    pub column: Option<u32>,
}

impl View for PathWithPosition {
    type V = PositionModel;

    open spec fn view(&self) -> PositionModel {
        PositionModel { path: self.path@, row: self.row, column: self.column }
    }
}

/// The path and the position that a text means, the path in full where there is one.
pub open spec fn meant(given: GivenPath, windows: bool) -> PositionModel {
    if is_plain_file(given, windows) {
        PositionModel {
            path: match opt_text(given.canonical_text) {
                Some(path) => path,
                None => given.text@,
            },
            row: None,
            column: None,
        }
    } else {
        PositionModel {
            path: match opt_text(given.canonical_parsed) {
                Some(path) => path,
                None => given.parsed.path@,
            },
            row: given.parsed.row,
            column: given.parsed.column,
        }
    }
}

/// The path and the position that a text means.
pub fn derive_path_with_position(given: &GivenPath, windows: bool) -> (r: PathWithPosition)
    ensures
        r@ == meant(*given, windows),
{
    let has_row = match given.parsed.row {
        Some(_) => true,
        None => false,
    };
    let plain = !windows && has_row && !same_text(given.parsed.path.as_str(), given.text.as_str())
        && given.text_is_file;
    if plain {
        let path = match clone_opt(&given.canonical_text) {
            Some(path) => path,
            None => given.text.clone(),
        };
        PathWithPosition { path, row: None, column: None }
    } else {
        let path = match clone_opt(&given.canonical_parsed) {
            Some(path) => path,
            None => given.parsed.path.clone(),
        };
        PathWithPosition { path, row: given.parsed.row, column: given.parsed.column }
    }
}

/// The paths and the positions that texts mean, in order.
pub fn derive_paths_with_position(given: &Vec<GivenPath>, windows: bool) -> (r: Vec<PathWithPosition>)
    ensures
        r@.len() == given@.len(),
        forall|i: int| 0 <= i < given@.len() ==> (#[trigger] r@[i])@ == meant(given@[i], windows),
{
    let mut out: Vec<PathWithPosition> = Vec::new();
    let mut i: usize = 0;
    while i < given.len()
        invariant
            i <= given@.len(),
            out@.len() == i,
            forall|k: int| 0 <= k < i ==> (#[trigger] out@[k])@ == meant(given@[k], windows),
        decreases given@.len() - i,
    {
        out.push(derive_path_with_position(&given[i], windows));
        i += 1;
    }
    out
}

/// How paths are opened that were asked for from outside.
#[derive(Debug, Clone, Copy, PartialEq, Eq, Structural)]
pub struct OpenOptions {
    /// Only a workspace with these very paths is used again.
    pub match_exact: bool,
    pub add_dirs_to_sidebar: bool,
    /// The window to open them in, where there is one.
    pub requesting_window: Option<u64>,
    pub open_in_dev_container: bool,
}

/// What a command line opens by itself.
#[derive(Debug, Clone, Copy, PartialEq, Eq, Structural)]
pub enum CliDefaultOpenBehavior {
    ExistingWindow,
    NewWindow,
}

/// How the paths of a request are opened: in the first of the windows of the place.
pub fn open_options_for_request(behavior: CliDefaultOpenBehavior, windows: &Vec<u64>, dev_container: bool) -> (r:
    OpenOptions)
    ensures
        r.match_exact,
        r.add_dirs_to_sidebar == (behavior == CliDefaultOpenBehavior::ExistingWindow),
        r.requesting_window == if windows@.len() > 0 {
            Some(windows@[0])
        } else {
            None
        },
        r.open_in_dev_container == dev_container,
{
    let requesting_window = if windows.len() > 0 {
        Some(windows[0])
    } else {
        None
    };
    OpenOptions {
        match_exact: true,
        add_dirs_to_sidebar: behavior == CliDefaultOpenBehavior::ExistingWindow,
        requesting_window,
        open_in_dev_container: dev_container,
    }
}

/// What is said of a path that could not be opened, where the path is given as it is shown.
pub fn open_error(shown_path: &str, error: &str) -> (r: String)
    ensures
        r@ == "error opening "@ + shown_path@ + ": "@ + error@,
{
    "error opening ".to_owned().concat(shown_path).concat(": ").concat(error)
}

proof fn lemma_address_starts()
    ensures
        "zed-dock-action://"@.len() == 18 && "zed-dock-action://"@[0] == 'z' && "zed-dock-action://"@[3] == '-',
        "file://"@.len() == 7 && "file://"@[0] == 'f',
        "zed://file"@.len() == 10 && "zed://file"@[0] == 'z' && "zed://file"@[3] == ':' && "zed://file"@[6] == 'f',
        "zed://"@.len() == 6 && "zed://"@[0] == 'z' && "zed://"@[3] == ':',
        "zed://open"@.len() == 10 && "zed://open"@[0] == 'z' && "zed://open"@[3] == ':' && "zed://open"@[6] == 'o',
        "zed://open/"@.len() == 11 && "zed://open/"@[0] == 'z' && "zed://open/"@[3] == ':' && "zed://open/"@[6] == 'o',
        "zed://settings"@.len() == 14 && "zed://settings"@[0] == 'z' && "zed://settings"@[3] == ':'
            && "zed://settings"@[6] == 's',
        "zed://settings/"@.len() == 15 && "zed://settings/"@[0] == 'z' && "zed://settings/"@[3] == ':'
            && "zed://settings/"@[6] == 's',
{
    reveal_strlit("zed-dock-action://");
    reveal_strlit("file://");
    reveal_strlit("zed://file");
    reveal_strlit("zed://");
    reveal_strlit("zed://open");
    reveal_strlit("zed://open/");
    reveal_strlit("zed://settings");
    reveal_strlit("zed://settings/");
}

/// What follows the scheme of an address is what the address is about: an entry of the dock menu, a
/// file, a setting. Other addresses of the program ask for the program itself, or for its settings.
pub proof fn lemma_address_read(rest: Seq<char>)
    ensures
        url_of("zed-dock-action://"@ + rest) == UrlModel::DockMenuAction(rest),
        url_of("file://"@ + rest) == UrlModel::File(rest),
        url_of("zed://file"@ + rest) == UrlModel::File(rest),
        rest.len() > 0 ==> url_of("zed://settings/"@ + rest) == UrlModel::Setting(Some(rest)),
        url_of("zed://settings/"@) == UrlModel::Setting(None),
        url_of("zed://settings"@) == UrlModel::Setting(None),
        url_of("zed://"@) is FocusApp,
        url_of("zed://open"@) is FocusApp,
        url_of("zed://open/"@) is FocusApp,
{
    lemma_address_starts();
    let dock = "zed-dock-action://"@;
    let file = "file://"@;
    let own_file = "zed://file"@;
    let setting = "zed://settings/"@;
    assert(dock.is_prefix_of(dock + rest));
    assert((dock + rest).skip(18) =~= rest);
    assert((file + rest)[0] == 'f');
    assert(file.is_prefix_of(file + rest));
    assert((file + rest).skip(7) =~= rest);
    assert((own_file + rest)[0] == 'z');
    assert((own_file + rest)[3] == ':');
    assert(own_file.is_prefix_of(own_file + rest));
    assert((own_file + rest).skip(10) =~= rest);
    assert((setting + rest)[0] == 'z');
    assert((setting + rest)[3] == ':');
    assert((setting + rest)[6] == 's');
    assert(setting.is_prefix_of(setting + rest));
    assert((setting + rest).skip(15) =~= rest);
    assert(own_file.is_prefix_of(setting + rest) ==> (setting + rest)[6] == own_file[6]);
    assert(own_file.is_prefix_of("zed://open"@) ==> "zed://open"@[6] == own_file[6]);
    assert(own_file.is_prefix_of("zed://open/"@) ==> "zed://open/"@[6] == own_file[6]);
    assert(own_file.is_prefix_of("zed://settings"@) ==> "zed://settings"@[6] == own_file[6]);
    assert(own_file.is_prefix_of(setting) ==> setting[6] == own_file[6]);
}

/// An address that is none of the known ones asks for nothing.
pub proof fn lemma_unknown_address(url: Seq<char>, asked: AskedModel)
    requires
        !"zed-dock-action://"@.is_prefix_of(url),
        !"file://"@.is_prefix_of(url),
        !"zed://"@.is_prefix_of(url),
    ensures
        asked_with(asked, url) == Ok::<AskedModel, Seq<char>>(asked),
{
    reveal_strlit("zed://");
    reveal_strlit("zed://file");
    reveal_strlit("zed://open");
    reveal_strlit("zed://open/");
    reveal_strlit("zed://settings");
    reveal_strlit("zed://settings/");
    let own = "zed://"@;
    assert(own.is_prefix_of("zed://file"@));
    assert(own.is_prefix_of("zed://open"@));
    assert(own.is_prefix_of("zed://open/"@));
    assert(own.is_prefix_of("zed://settings"@));
    assert(own.is_prefix_of("zed://settings/"@));
    assert("zed://file"@.is_prefix_of(url) ==> own.is_prefix_of(url));
    assert("zed://settings/"@.is_prefix_of(url) ==> own.is_prefix_of(url));
}

/// A file that is asked for is opened besides what else is asked for, under the name that its
/// address stands for; where the address stands for no name, it is passed over.
pub proof fn lemma_file_asked(asked: AskedModel, name: Seq<char>)
    ensures
        asked_with(asked, "file://"@ + name) matches Ok(now) && now.kind == asked.kind && now.open_paths == (
        match percent_decoded(name) {
            Some(path) => asked.open_paths.push(path),
            None => asked.open_paths,
        }),
        asked_with(asked, "zed://file"@ + name) == asked_with(asked, "file://"@ + name),
{
    lemma_address_read(name);
}

/// What is asked for besides files is the last such thing; the files stay. A dock menu entry is
/// given by its number, and nonsense there is the answer.
pub proof fn lemma_other_asked(asked: AskedModel, setting: Seq<char>, index: usize, nonsense: Seq<char>)
    requires
        setting.len() > 0,
        unsigned_of(nonsense, usize::MAX as nat) is None,
    ensures
        asked_with(asked, "zed://"@) == Ok::<AskedModel, Seq<char>>(
            AskedModel { kind: Some(KindModel::FocusApp), open_paths: asked.open_paths },
        ),
        asked_with(asked, "zed://settings"@) == Ok::<AskedModel, Seq<char>>(
            AskedModel { kind: Some(KindModel::Setting(None)), open_paths: asked.open_paths },
        ),
        asked_with(asked, "zed://settings/"@ + setting) == Ok::<AskedModel, Seq<char>>(
            AskedModel { kind: Some(KindModel::Setting(Some(setting))), open_paths: asked.open_paths },
        ),
        asked_with(asked, "zed-dock-action://"@ + integer_text(index as int)) == Ok::<AskedModel, Seq<char>>(
            AskedModel { kind: Some(KindModel::DockMenuAction(index as int)), open_paths: asked.open_paths },
        ),
        asked_with(asked, "zed-dock-action://"@ + nonsense) == Err::<AskedModel, Seq<char>>(nonsense),
{
    lemma_address_read(setting);
    lemma_address_read(integer_text(index as int));
    lemma_address_read(nonsense);
    crate::decimal::lemma_unsigned_round_trip(index as nat, usize::MAX as nat);
}

/// Two lists of addresses ask together for the files of both, in order, and else for what the later
/// one asks for, or the earlier one where the later asks for nothing else.
pub proof fn lemma_asked_together(first: Seq<Seq<char>>, second: Seq<Seq<char>>)
    requires
        asked_for(first) is Ok,
        asked_for(second) is Ok,
    ensures
        asked_for(first + second) matches Ok(both) && both.open_paths == asked_for(first)->Ok_0.open_paths + asked_for(
            second,
        )->Ok_0.open_paths && both.kind == (match asked_for(second)->Ok_0.kind {
            Some(kind) => Some(kind),
            None => asked_for(first)->Ok_0.kind,
        }),
    decreases second.len(),
{
    if second.len() == 0 {
        assert(first + second =~= first);
        assert(asked_for(first)->Ok_0.open_paths + asked_for(second)->Ok_0.open_paths =~= asked_for(
            first,
        )->Ok_0.open_paths);
    } else {
        assert((first + second).drop_last() =~= first + second.drop_last());
        assert((first + second).last() == second.last());
        lemma_asked_together(first, second.drop_last());
        assert(asked_for(first + second)->Ok_0.open_paths =~= asked_for(first)->Ok_0.open_paths + asked_for(
            second,
        )->Ok_0.open_paths);
    }
}

/// A list of addresses that cannot be read is not read whatever follows it, and the same is
/// complained of.
pub proof fn lemma_first_nonsense_told(first: Seq<Seq<char>>, second: Seq<Seq<char>>)
    requires
        asked_for(first) is Err,
    ensures
        asked_for(first + second) == asked_for(first),
{
    let all = first + second;
    assert(all.take(first.len() as int) =~= first);
    lemma_nonsense_stays(all, first.len() as int);
}

/// A request is answered with what it asks for. Its paths are opened where it asks for nothing else,
/// in a container where it says so.
pub proof fn lemma_request_answered(index: int, setting: Seq<char>, any_paths: bool, dev_container: bool)
    ensures
        answer_to(Some(KindModel::FocusApp), any_paths, dev_container) is FocusOrOpen,
        answer_to(Some(KindModel::DockMenuAction(index)), any_paths, dev_container) == AnswerModel::PerformDockAction(
            index,
        ),
        answer_to(Some(KindModel::Setting(None)), any_paths, dev_container) is OpenSettings,
        answer_to(Some(KindModel::Setting(Some(setting))), any_paths, dev_container) == AnswerModel::OpenSettingsAt(
            setting,
        ),
        answer_to(None, true, dev_container) == AnswerModel::OpenPaths(dev_container),
        answer_to(None, false, dev_container) is Nothing,
{
}

/// An argument that names a file is read as that file, by its full path. Any other is read as it is
/// where it starts as an address does, and as a file of that name where it does not.
pub proof fn lemma_argument_read(argument: Seq<char>, canonical: Seq<char>, rest: Seq<char>)
    ensures
        url_of(address_of_argument(argument, Some(canonical))) == UrlModel::File(canonical),
        address_of_argument("file://"@ + rest, None) == "file://"@ + rest,
        address_of_argument("zed://"@ + rest, None) == "zed://"@ + rest,
        address_of_argument("zed-cli://"@ + rest, None) == "zed-cli://"@ + rest,
        address_of_argument("ssh://"@ + rest, None) == "ssh://"@ + rest,
        address_of_argument("zed-link://"@ + rest, None) == "zed-link://"@ + rest,
        !argument.contains(':') ==> url_of(address_of_argument(argument, None)) == UrlModel::File(argument),
{
    lemma_address_read(canonical);
    lemma_address_read(argument);
    assert("file://"@.is_prefix_of("file://"@ + rest));
    assert("zed://"@.is_prefix_of("zed://"@ + rest));
    assert("zed-cli://"@.is_prefix_of("zed-cli://"@ + rest));
    assert("ssh://"@.is_prefix_of("ssh://"@ + rest));
    assert("zed-link://"@.is_prefix_of("zed-link://"@ + rest));
    if !argument.contains(':') {
        lemma_scheme_has_colon(argument);
    }
}

proof fn lemma_scheme_has_colon(argument: Seq<char>)
    requires
        !argument.contains(':'),
    ensures
        !"file://"@.is_prefix_of(argument),
        !"zed://"@.is_prefix_of(argument),
        !"zed-cli://"@.is_prefix_of(argument),
        !"ssh://"@.is_prefix_of(argument),
        !"zed-link://"@.is_prefix_of(argument),
        !"http://"@.is_prefix_of(argument),
        !"https://"@.is_prefix_of(argument),
{
    reveal_strlit("file://");
    reveal_strlit("zed://");
    reveal_strlit("zed-cli://");
    reveal_strlit("ssh://");
    reveal_strlit("zed-link://");
    reveal_strlit("http://");
    reveal_strlit("https://");
    assert("file://"@[4] == ':');
    assert("zed://"@[3] == ':');
    assert("zed-cli://"@[7] == ':');
    assert("ssh://"@[3] == ':');
    assert("zed-link://"@[8] == ':');
    assert("http://"@[4] == ':');
    assert("https://"@[5] == ':');
    assert(forall|i: int| 0 <= i < argument.len() ==> argument[i] != ':');
}

/// The instance that is already running is asked for a dock menu entry before anything else; without
/// arguments it is asked to come to the front; else it is asked for the first argument: the address
/// that it is, or the file that it names.
pub proof fn lemma_instance_asked(index: usize, arguments: Seq<Seq<char>>, canonical: Option<Seq<char>>)
    ensures
        address_for_instance(Some(index), arguments, canonical) == "zed-dock-action://"@ + integer_text(index as int),
        arguments.len() == 0 ==> url_of(address_for_instance(None, arguments, canonical)) is FocusApp,
        arguments.len() > 0 && ("zed://"@.is_prefix_of(arguments[0]) || "http://"@.is_prefix_of(arguments[0])
            || "https://"@.is_prefix_of(arguments[0]) || "file://"@.is_prefix_of(arguments[0])
            || "ssh://"@.is_prefix_of(arguments[0])) ==> address_for_instance(None, arguments, canonical)
            == arguments[0],
        arguments.len() > 0 && !arguments[0].contains(':') ==> url_of(address_for_instance(None, arguments, canonical))
            == UrlModel::File(
            match canonical {
                Some(path) => path,
                None => arguments[0],
            },
        ),
{
    lemma_address_read(Seq::empty());
    if arguments.len() > 0 && !arguments[0].contains(':') {
        lemma_scheme_has_colon(arguments[0]);
        lemma_address_read(arguments[0]);
        if let Some(path) = canonical {
            lemma_address_read(path);
        }
    }
}

/// A text that names a file away from Windows means that file, with no position in it. Else it means
/// what it reads as, position included. A path is given in full where it is known in full.
pub proof fn lemma_path_meant(given: GivenPath, windows: bool)
    ensures
        given.parsed.path@ == given.text@ || windows || !given.text_is_file || given.parsed.row is None ==> {
            &&& meant(given, windows).row == given.parsed.row
            &&& meant(given, windows).column == given.parsed.column
            &&& given.canonical_parsed is Some ==> meant(given, windows).path == given.canonical_parsed->0@
            &&& given.canonical_parsed is None ==> meant(given, windows).path == given.parsed.path@
        },
        given.parsed.path@ != given.text@ && !windows && given.text_is_file && given.parsed.row is Some ==> {
            &&& meant(given, windows).row is None
            &&& meant(given, windows).column is None
            &&& given.canonical_text is Some ==> meant(given, windows).path == given.canonical_text->0@
            &&& given.canonical_text is None ==> meant(given, windows).path == given.text@
        },
{
}

/// A message ends before its first zero, and is all that stands before it.
pub proof fn lemma_message_ends(buffer: Seq<u8>)
    ensures
        bytes_before_zero(buffer) is Some <==> buffer.contains(0u8),
        bytes_before_zero(buffer) matches Some(bytes) ==> !bytes.contains(0u8) && bytes.len() < buffer.len()
            && buffer[bytes.len() as int] == 0 && bytes == buffer.take(bytes.len() as int),
{
    buffer.index_of_first_ensures(0u8);
}

} // verus!
