//! Keeping a copy of a package index: when to ask the server, what to do with its
//! reply, and what to remember for the next time.
use vstd::prelude::*;
use vstd::utf8::{decode_utf8, valid_utf8};

use crate::error::{outcome, ErrorView, UvrError};

use crate::text::{chars_of, lines, lines_of, lines_of_line_and_rest, opt_view, prefix_is_stripped, slice_views,
    string_of, strip_prefix, without_prefix};

verus! {

/// What the server said last of the state of the index.
#[derive(Debug, Clone, PartialEq, Eq)]
pub struct CacheMeta {
    pub etag: Option<String>,
    pub last_modified: Option<String>,
}

/// The state of an index as a mathematical value.
pub struct MetaView {
    pub etag: Option<Seq<char>>,
    pub last_modified: Option<Seq<char>>,
}

impl View for CacheMeta {
    type V = MetaView;

    open spec fn view(&self) -> MetaView {
        MetaView { etag: opt_view(self.etag), last_modified: opt_view(self.last_modified) }
    }
}

/// What the lines of the file say. Of two lines for one thing the later counts;
/// other lines are passed over.
pub open spec fn meta_of_lines(ls: Seq<Seq<char>>) -> MetaView
    decreases ls.len(),
{
    if ls.len() == 0 {
        MetaView { etag: None, last_modified: None }
    } else {
        let m = meta_of_lines(ls.drop_last());
        match strip_prefix(ls.last(), "etag: "@) {
            Some(v) => MetaView { etag: Some(v), ..m },
            None => match strip_prefix(ls.last(), "last-modified: "@) {
                Some(v) => MetaView { last_modified: Some(v), ..m },
                None => m,
            },
        }
    }
}

/// The line for a value, where there is one.
pub open spec fn meta_line(key: Seq<char>, value: Option<Seq<char>>) -> Seq<char> {
    match value {
        Some(v) => key + v + "\n"@,
        None => seq![],
    }
}

/// The content of the file for the state of an index.
pub open spec fn meta_text(m: MetaView) -> Seq<char> {
    meta_line("etag: "@, m.etag) + meta_line("last-modified: "@, m.last_modified)
}

/// Reads the content of the file.
pub fn parse_cache_meta(content: &str) -> (r: CacheMeta)
    ensures
        r@ == meta_of_lines(lines(content@)),
{
    let cs = chars_of(content);
    let ls = lines_of(cs.as_slice());
    let ghost all = lines(content@);
    let mut r = CacheMeta { etag: None, last_modified: None };
    let mut i: usize = 0;
    assert(all.take(0) == Seq::<Seq<char>>::empty());
    while i < ls.len()
        invariant
            i <= ls@.len(),
            slice_views(ls@) == all,
            r@ == meta_of_lines(all.take(i as int)),
        decreases ls@.len() - i,
    {
        proof {
            assert(slice_views(ls@)[i as int] == ls@[i as int]@);
            assert(all.take(i + 1).drop_last() == all.take(i as int));
        }
        match without_prefix(ls[i], "etag: ") {
            Some(v) => {
                r.etag = Some(string_of(v));
            },
            None => match without_prefix(ls[i], "last-modified: ") {
                Some(v) => {
                    r.last_modified = Some(string_of(v));
                },
                None => {},
            },
        }
        i += 1;
    }
    assert(all.take(i as int) == all);
    r
}

/// The content of the file.
pub fn render_cache_meta(m: &CacheMeta) -> (r: String)
    ensures
        r@ == meta_text(m@),
{
    let first = match &m.etag {
        Some(v) => "etag: ".to_owned().concat(v.as_str()).concat("\n"),
        None => String::new(),
    };
    let second = match &m.last_modified {
        Some(v) => "last-modified: ".to_owned().concat(v.as_str()).concat("\n"),
        None => String::new(),
    };
    first.concat(second.as_str())
}

/// A value that fits on a line.
pub open spec fn fits_line(v: Seq<char>) -> bool {
    !v.contains('\n') && !v.contains('\r')
}

/// What is written of the state of an index is read back.
pub proof fn meta_is_read_back(m: MetaView)
    requires
        m.etag is Some ==> fits_line(m.etag->0),
        m.last_modified is Some ==> fits_line(m.last_modified->0),
    ensures
        meta_of_lines(lines(meta_text(m))) == m,
{
    reveal_strlit("etag: ");
    reveal_strlit("last-modified: ");
    reveal_strlit("\n");
    reveal_with_fuel(meta_of_lines, 3);
    let second = meta_line("last-modified: "@, m.last_modified);
    let none = Seq::<char>::empty();
    assert(lines(none) == Seq::<Seq<char>>::empty());
    let b = match m.last_modified {
        Some(v) => seq!["last-modified: "@ + v],
        None => seq![],
    };
    assert(lines(second) == b) by {
        if let Some(v) = m.last_modified {
            let line = "last-modified: "@ + v;
            assert forall|k: int| 0 <= k < line.len() implies line[k] != '\n' && line[k] != '\r' by {
                if k >= 15 {
                    assert(v.contains(v[k - 15]));
                }
            }
            lines_of_line_and_rest(line, none);
            assert(line.push('\n') + none == second);
        }
    }
    let a = match m.etag {
        Some(v) => seq!["etag: "@ + v],
        None => seq![],
    };
    assert(lines(meta_text(m)) == a + b) by {
        if let Some(v) = m.etag {
            let line = "etag: "@ + v;
            assert forall|k: int| 0 <= k < line.len() implies line[k] != '\n' && line[k] != '\r' by {
                if k >= 6 {
                    assert(v.contains(v[k - 6]));
                }
            }
            lines_of_line_and_rest(line, second);
            assert(line.push('\n') + second == meta_text(m));
        } else {
            assert(meta_text(m) == second);
        }
    }
    let ls = a + b;
    if let Some(v) = m.etag {
        prefix_is_stripped("etag: "@, v);
    }
    if let Some(v) = m.last_modified {
        prefix_is_stripped("last-modified: "@, v);
        let line = "last-modified: "@ + v;
        assert(strip_prefix(line, "etag: "@) is None) by {
            if crate::text::starts_with(line, "etag: "@) {
                assert(line.subrange(0, 6)[0] == 'e');
            }
        }
        assert(ls.last() == line);
        assert(ls.drop_last() == a);
    } else {
        assert(ls == a);
    }
    if a.len() > 0 {
        assert(a.drop_last() == Seq::<Seq<char>>::empty());
        assert(a.last() == a[0]);
    }
}

/// The reply of the server.
#[derive(Debug, PartialEq, Eq)]
pub enum IndexReply {
    /// The index has not changed.
    NotModified,
    /// The index, compressed, and its state.
    Success { body: Vec<u8>, meta: CacheMeta },
    /// Another reply, with its status in words.
    Refused { status: String },
    /// No reply, and why.
    Failed { reason: String },
    /// The index was on its way, and was lost.
    Broken { reason: String },
}

/// What unpacking gzip data comes to: the data, or the description of the error.
pub uninterp spec fn gunzipped(data: Seq<u8>) -> Result<Seq<u8>, Seq<char>>;

/// The text of some bytes, with a replacement character for what is not UTF-8.
pub uninterp spec fn lossy_text(data: Seq<u8>) -> Seq<char>;

/// `flate2::read::GzDecoder` over the bytes, read to its end: the unpacked data, or
/// what the error says.
#[verifier::external_body]
fn gunzip(data: &[u8]) -> (r: Result<Vec<u8>, String>)
    ensures
        match r {
            Ok(v) => gunzipped(data@) == Ok::<Seq<u8>, Seq<char>>(v@),
            Err(e) => gunzipped(data@) == Err::<Seq<u8>, Seq<char>>(e@),
        },
{
    let mut out: Vec<u8> = Vec::new();
    match std::io::Read::read_to_end(&mut flate2::read::GzDecoder::new(data), &mut out) {
        Ok(_) => Ok(out),
        Err(e) => Err(e.to_string()),
    }
}

/// `String::from_utf8_lossy`: the text that the bytes encode, where they are UTF-8.
#[verifier::external_body]
pub(crate) fn from_utf8_lossy(data: &[u8]) -> (r: String)
    ensures
        r@ == lossy_text(data@),
        valid_utf8(data@) ==> r@ == decode_utf8(data@),
{
    String::from_utf8_lossy(data).into_owned()
}

/// `std::str::from_utf8`: the text that the bytes encode, where they are UTF-8 and
/// only then.
#[verifier::external_body]
pub(crate) fn from_utf8(data: &[u8]) -> (r: Option<String>)
    ensures
        match r {
            Some(s) => valid_utf8(data@) && s@ == decode_utf8(data@),
            None => !valid_utf8(data@),
        },
{
    match std::str::from_utf8(data) {
        Ok(s) => Some(s.to_string()),
        Err(_) => None,
    }
}

/// The unpacked data, or the error for what went wrong.
pub open spec fn unpacked(data: Seq<u8>) -> Result<Seq<u8>, ErrorView> {
    match gunzipped(data) {
        Ok(d) => Ok(d),
        Err(e) => Err(ErrorView::Io(e)),
    }
}

/// Unpacks gzip data.
pub fn unpack(data: &[u8]) -> (r: Result<Vec<u8>, UvrError>)
    ensures
        outcome(r) == unpacked(data@),
{
    match gunzip(data) {
        Ok(d) => Ok(d),
        Err(e) => Err(UvrError::Io(e)),
    }
}

/// The text that the bytes encode, or the error that they encode none.
pub open spec fn text_of(data: Seq<u8>) -> Result<Seq<char>, ErrorView> {
    if valid_utf8(data) {
        Ok(decode_utf8(data))
    } else {
        Err(ErrorView::Io("stream did not contain valid UTF-8"@))
    }
}

/// The text that the bytes encode.
pub fn text_from_bytes(data: &[u8]) -> (r: Result<String, UvrError>)
    ensures
        outcome(r) == text_of(data@),
{
    match from_utf8(data) {
        Some(s) => Ok(s),
        None => Err(UvrError::Io("stream did not contain valid UTF-8".to_owned())),
    }
}

/// The text in gzip data.
pub open spec fn unpacked_text(data: Seq<u8>) -> Result<Seq<char>, ErrorView> {
    match unpacked(data) {
        Ok(d) => text_of(d),
        Err(e) => Err(e),
    }
}

/// The text in gzip data, or the error for what went wrong.
pub fn unpack_text(data: &[u8]) -> (r: Result<String, UvrError>)
    ensures
        outcome(r) == unpacked_text(data@),
{
    match unpack(data) {
        Ok(d) => text_from_bytes(d.as_slice()),
        Err(e) => Err(e),
    }
}

/// The index of a repository that has to be had.
#[derive(Debug)]
pub struct IndexJob {
    /// A copy that is there does not do.
    pub force_refresh: bool,
    /// What is said of a reply that is no index, before its status.
    pub refusal: String,
    /// The index has to be UTF-8, and its state is kept though its copy could not be.
    pub strict: bool,
}

/// The index of a repository that has to be had, as a mathematical value.
pub struct IndexJobView {
    pub force_refresh: bool,
    pub refusal: Seq<char>,
    pub strict: bool,
}

impl View for IndexJob {
    type V = IndexJobView;

    open spec fn view(&self) -> IndexJobView {
        IndexJobView { force_refresh: self.force_refresh, refusal: self.refusal@, strict: self.strict }
    }
}

impl IndexJob {
    /// The index of a repository laid out like CRAN.
    pub fn repository(packages_url: &str, force_refresh: bool) -> (r: IndexJob)
        ensures
            r@ == (IndexJobView {
                force_refresh,
                refusal: "Failed to fetch package index from "@ + packages_url@,
                strict: false,
            }),
    {
        IndexJob {
            force_refresh,
            refusal: "Failed to fetch package index from ".to_owned().concat(packages_url),
            strict: false,
        }
    }

    /// An index of a release of Bioconductor.
    pub fn subrepo(subrepo: &str) -> (r: IndexJob)
        ensures
            r@ == (IndexJobView {
                force_refresh: false,
                refusal: "Failed to fetch Bioconductor "@ + subrepo@ + " index"@,
                strict: true,
            }),
    {
        IndexJob {
            force_refresh: false,
            refusal: "Failed to fetch Bioconductor ".to_owned().concat(subrepo).concat(" index"),
            strict: true,
        }
    }
}

/// How far it has come with an index.
#[derive(Debug, PartialEq, Eq)]
pub enum IndexPhase {
    /// Is there a copy?
    Looking,
    /// Has the index changed?
    Asking,
    Downloading,
    ReadingCopy,
    /// A new copy is written.
    Keeping { text: String, meta: CacheMeta },
    Ended,
}

/// How far it has come with an index, as a mathematical value.
pub enum IndexPhaseView {
    Looking,
    Asking,
    Downloading,
    ReadingCopy,
    Keeping { text: Seq<char>, meta: MetaView },
    Ended,
}

impl View for IndexPhase {
    type V = IndexPhaseView;

    open spec fn view(&self) -> IndexPhaseView {
        match *self {
            IndexPhase::Looking => IndexPhaseView::Looking,
            IndexPhase::Asking => IndexPhaseView::Asking,
            IndexPhase::Downloading => IndexPhaseView::Downloading,
            IndexPhase::ReadingCopy => IndexPhaseView::ReadingCopy,
            IndexPhase::Keeping { text, meta } => IndexPhaseView::Keeping { text: text@, meta: meta@ },
            IndexPhase::Ended => IndexPhaseView::Ended,
        }
    }
}

/// What has happened.
#[derive(Debug, PartialEq, Eq)]
pub enum IndexEvent {
    /// Whether there is a copy, and what is kept of its state.
    Copy { there: bool, meta: Option<CacheMeta> },
    Reply(IndexReply),
    CopyRead(Vec<u8>),
    CopyUnreadable { reason: String },
    /// Whether the new copy was written.
    Kept(bool),
}

/// The reply of the server as a mathematical value.
pub enum ReplyView {
    NotModified,
    Success { body: Seq<u8>, meta: MetaView },
    Refused { status: Seq<char> },
    Failed { reason: Seq<char> },
    Broken { reason: Seq<char> },
}

impl View for IndexReply {
    type V = ReplyView;

    open spec fn view(&self) -> ReplyView {
        match *self {
            IndexReply::NotModified => ReplyView::NotModified,
            IndexReply::Success { body, meta } => ReplyView::Success { body: body@, meta: meta@ },
            IndexReply::Refused { status } => ReplyView::Refused { status: status@ },
            IndexReply::Failed { reason } => ReplyView::Failed { reason: reason@ },
            IndexReply::Broken { reason } => ReplyView::Broken { reason: reason@ },
        }
    }
}

/// What has happened, as a mathematical value.
pub enum IndexEventView {
    Copy { there: bool, meta: Option<MetaView> },
    Reply(ReplyView),
    CopyRead(Seq<u8>),
    CopyUnreadable { reason: Seq<char> },
    Kept(bool),
}

impl View for IndexEvent {
    type V = IndexEventView;

    open spec fn view(&self) -> IndexEventView {
        match *self {
            IndexEvent::Copy { there, meta } => IndexEventView::Copy {
                there,
                meta: match meta {
                    Some(m) => Some(m@),
                    None => None,
                },
            },
            IndexEvent::Reply(reply) => IndexEventView::Reply(reply@),
            IndexEvent::CopyRead(data) => IndexEventView::CopyRead(data@),
            IndexEvent::CopyUnreadable { reason } => IndexEventView::CopyUnreadable { reason: reason@ },
            IndexEvent::Kept(written) => IndexEventView::Kept(written),
        }
    }
}

/// What is done next.
#[derive(Debug, PartialEq, Eq)]
pub enum IndexAction {
    /// Ask the server for the index if it has changed since.
    Ask(CacheMeta),
    Download,
    ReadCopy,
    /// Write a new copy.
    Keep(Vec<u8>),
    /// Use the text of the index, and keep its state where one is given.
    Use { text: String, meta: Option<CacheMeta> },
    Fail(UvrError),
    Wait,
}

/// What is done next, as a mathematical value.
pub enum IndexActionView {
    Ask(MetaView),
    Download,
    ReadCopy,
    Keep(Seq<u8>),
    Use { text: Seq<char>, meta: Option<MetaView> },
    Fail(ErrorView),
    Wait,
}

impl View for IndexAction {
    type V = IndexActionView;

    open spec fn view(&self) -> IndexActionView {
        match *self {
            IndexAction::Ask(meta) => IndexActionView::Ask(meta@),
            IndexAction::Download => IndexActionView::Download,
            IndexAction::ReadCopy => IndexActionView::ReadCopy,
            IndexAction::Keep(data) => IndexActionView::Keep(data@),
            IndexAction::Use { text, meta } => IndexActionView::Use {
                text: text@,
                meta: match meta {
                    Some(m) => Some(m@),
                    None => None,
                },
            },
            IndexAction::Fail(e) => IndexActionView::Fail(e@),
            IndexAction::Wait => IndexActionView::Wait,
        }
    }
}

/// The text of an unpacked index.
pub open spec fn index_text(strict: bool, data: Seq<u8>) -> Result<Seq<char>, ErrorView> {
    if strict {
        text_of(data)
    } else {
        Ok(lossy_text(data))
    }
}

fn index_text_from(strict: bool, data: &[u8]) -> (r: Result<String, UvrError>)
    ensures
        outcome(r) == index_text(strict, data@),
{
    if strict {
        text_from_bytes(data)
    } else {
        Ok(from_utf8_lossy(data))
    }
}

/// What follows on a new index: it is unpacked and read, and only then kept.
pub open spec fn take_index(strict: bool, body: Seq<u8>, meta: MetaView) -> (IndexPhaseView, IndexActionView) {
    match unpacked(body) {
        Err(e) => (IndexPhaseView::Ended, IndexActionView::Fail(e)),
        Ok(data) => match index_text(strict, data) {
            Err(e) => (IndexPhaseView::Ended, IndexActionView::Fail(e)),
            Ok(text) => (IndexPhaseView::Keeping { text, meta }, IndexActionView::Keep(data)),
        },
    }
}

fn take(strict: bool, body: &[u8], meta: CacheMeta) -> (r: (IndexPhase, IndexAction))
    ensures
        (r.0@, r.1@) == take_index(strict, body@, meta@),
{
    match unpack(body) {
        Err(e) => (IndexPhase::Ended, IndexAction::Fail(e)),
        Ok(data) => match index_text_from(strict, data.as_slice()) {
            Err(e) => (IndexPhase::Ended, IndexAction::Fail(e)),
            Ok(text) => (IndexPhase::Keeping { text, meta }, IndexAction::Keep(data)),
        },
    }
}

/// What is done about an index after each thing that happened.
///
/// Without a copy, or where a fresh index is asked for, it is downloaded. With a copy the
/// server is asked, where there is something to ask it with; a server that cannot say
/// leaves the copy in use. The state of a new index is kept once its copy was written.
pub open spec fn next_index(j: IndexJobView, p: IndexPhaseView, e: IndexEventView) -> (IndexPhaseView, IndexActionView) {
    match (p, e) {
        (IndexPhaseView::Looking, IndexEventView::Copy { there, meta }) => if j.force_refresh || !there {
            (IndexPhaseView::Downloading, IndexActionView::Download)
        } else {
            match meta {
                Some(m) => (IndexPhaseView::Asking, IndexActionView::Ask(m)),
                None => (IndexPhaseView::ReadingCopy, IndexActionView::ReadCopy),
            }
        },
        (IndexPhaseView::Asking, IndexEventView::Reply(reply)) => match reply {
            ReplyView::Success { body, meta } => take_index(j.strict, body, meta),
            ReplyView::Broken { reason } => (IndexPhaseView::Ended, IndexActionView::Fail(ErrorView::Network(reason))),
            _ => (IndexPhaseView::ReadingCopy, IndexActionView::ReadCopy),
        },
        (IndexPhaseView::Downloading, IndexEventView::Reply(reply)) => match reply {
            ReplyView::Success { body, meta } => take_index(j.strict, body, meta),
            ReplyView::Refused { status } => (
                IndexPhaseView::Ended,
                IndexActionView::Fail(ErrorView::Other(j.refusal + " (HTTP "@ + status + ")"@)),
            ),
            ReplyView::NotModified => (
                IndexPhaseView::Ended,
                IndexActionView::Fail(ErrorView::Other(j.refusal + " (HTTP 304 Not Modified)"@)),
            ),
            ReplyView::Failed { reason } => (IndexPhaseView::Ended, IndexActionView::Fail(ErrorView::Network(reason))),
            ReplyView::Broken { reason } => (IndexPhaseView::Ended, IndexActionView::Fail(ErrorView::Network(reason))),
        },
        (IndexPhaseView::ReadingCopy, IndexEventView::CopyRead(data)) => match index_text(j.strict, data) {
            Ok(text) => (IndexPhaseView::Ended, IndexActionView::Use { text, meta: None }),
            Err(e) => (IndexPhaseView::Ended, IndexActionView::Fail(e)),
        },
        (IndexPhaseView::ReadingCopy, IndexEventView::CopyUnreadable { reason }) => (
            IndexPhaseView::Ended,
            IndexActionView::Fail(ErrorView::Io(reason)),
        ),
        (IndexPhaseView::Keeping { text, meta }, IndexEventView::Kept(written)) => (
            IndexPhaseView::Ended,
            IndexActionView::Use {
                text,
                meta: if written || j.strict {
                    Some(meta)
                } else {
                    None
                },
            },
        ),
        _ => (p, IndexActionView::Wait),
    }
}

/// What is done about an index after something happened; see [`next_index`].
pub fn index_step(job: &IndexJob, phase: IndexPhase, event: IndexEvent) -> (r: (IndexPhase, IndexAction))
    ensures
        (r.0@, r.1@) == next_index(job@, phase@, event@),
{
    match (phase, event) {
        (IndexPhase::Looking, IndexEvent::Copy { there, meta }) => if job.force_refresh || !there {
            (IndexPhase::Downloading, IndexAction::Download)
        } else {
            match meta {
                Some(m) => (IndexPhase::Asking, IndexAction::Ask(m)),
                None => (IndexPhase::ReadingCopy, IndexAction::ReadCopy),
            }
        },
        (IndexPhase::Asking, IndexEvent::Reply(reply)) => match reply {
            IndexReply::Success { body, meta } => take(job.strict, body.as_slice(), meta),
            IndexReply::Broken { reason } => (IndexPhase::Ended, IndexAction::Fail(UvrError::Network(reason))),
            _ => (IndexPhase::ReadingCopy, IndexAction::ReadCopy),
        },
        (IndexPhase::Downloading, IndexEvent::Reply(reply)) => match reply {
            IndexReply::Success { body, meta } => take(job.strict, body.as_slice(), meta),
            IndexReply::Refused { status } => (
                IndexPhase::Ended,
                IndexAction::Fail(
                    UvrError::Other(job.refusal.as_str().to_owned().concat(" (HTTP ").concat(status.as_str()).concat(")")),
                ),
            ),
            IndexReply::NotModified => (
                IndexPhase::Ended,
                IndexAction::Fail(UvrError::Other(job.refusal.as_str().to_owned().concat(" (HTTP 304 Not Modified)"))),
            ),
            IndexReply::Failed { reason } => (IndexPhase::Ended, IndexAction::Fail(UvrError::Network(reason))),
            IndexReply::Broken { reason } => (IndexPhase::Ended, IndexAction::Fail(UvrError::Network(reason))),
        },
        (IndexPhase::ReadingCopy, IndexEvent::CopyRead(data)) => match index_text_from(job.strict, data.as_slice()) {
            Ok(text) => (IndexPhase::Ended, IndexAction::Use { text, meta: None }),
            Err(e) => (IndexPhase::Ended, IndexAction::Fail(e)),
        },
        (IndexPhase::ReadingCopy, IndexEvent::CopyUnreadable { reason }) => (
            IndexPhase::Ended,
            IndexAction::Fail(UvrError::Io(reason)),
        ),
        (IndexPhase::Keeping { text, meta }, IndexEvent::Kept(written)) => (
            IndexPhase::Ended,
            IndexAction::Use {
                text,
                meta: if written || job.strict {
                    Some(meta)
                } else {
                    None
                },
            },
        ),
        (phase, _) => (phase, IndexAction::Wait),
    }
}

/// The state of an index of CRAN is kept only after its copy was written, so that the
/// server is never asked about a copy that is not there.
pub proof fn state_is_kept_after_copy(j: IndexJobView, p: IndexPhaseView, e: IndexEventView)
    requires
        !j.strict,
        next_index(j, p, e).1 matches IndexActionView::Use { text, meta: Some(m) },
    ensures
        e == IndexEventView::Kept(true),
        p matches IndexPhaseView::Keeping { text, meta } && next_index(j, p, e).1 == (IndexActionView::Use {
            text,
            meta: Some(meta),
        }),
{
}

/// A copy is replaced only by data that could be unpacked and read.
pub proof fn copy_is_replaced_by_good_data(j: IndexJobView, p: IndexPhaseView, e: IndexEventView, data: Seq<u8>)
    requires
        next_index(j, p, e).1 == IndexActionView::Keep(data),
    ensures
        e matches IndexEventView::Reply(ReplyView::Success { body, meta }) && unpacked(body) == Ok::<Seq<u8>, ErrorView>(
            data,
        ) && index_text(j.strict, data) is Ok,
{
}

/// A server that cannot be reached, or that answers with something else than an index,
/// does not take away the copy that is there.
pub proof fn copy_outlives_the_server(j: IndexJobView, reply: ReplyView)
    requires
        reply is NotModified || reply is Refused || reply is Failed,
    ensures
        next_index(j, IndexPhaseView::Asking, IndexEventView::Reply(reply)).1 is ReadCopy,
{
}

/// Where a repository of the project keeps its index and its packages, and under
/// which name the copy of its index is kept.
#[derive(Debug, Clone, PartialEq, Eq)]
pub struct RepositoryAddresses {
    pub packages_url: String,
    pub src_base: String,
    pub cache_key: String,
}

/// The address of a repository without slashes at its end.
pub open spec fn base_of(url: Seq<char>) -> Seq<char> {
    crate::text::trim_end_char(url, '/')
}

/// The addresses for a repository that the project adds. Its name alone would not
/// do for the copy of its index: two repositories may share it.
pub fn repository_addresses(repo_name: &str, base_url: &str) -> (r: RepositoryAddresses)
    ensures
        r.packages_url@ == base_of(base_url@) + "/src/contrib/PACKAGES.gz"@,
        r.src_base@ == base_of(base_url@) + "/src/contrib"@,
        r.cache_key@ == repo_name@ + "-"@ + crate::checksum::hex_text(
            crate::checksum::md5(vstd::utf8::encode_utf8(base_of(base_url@))),
        ).take(8),
{
    let cs = chars_of(base_url);
    let base = string_of(crate::text::trimmed_end_char(cs.as_slice(), '/'));
    let hash = chars_of(crate::checksum::md5_hex_digest(base.as_str().as_bytes()).as_str());
    let short = string_of(crate::text::part(hash.as_slice(), 0, 8));
    RepositoryAddresses {
        packages_url: base.as_str().to_owned().concat("/src/contrib/PACKAGES.gz"),
        src_base: base.as_str().to_owned().concat("/src/contrib"),
        cache_key: repo_name.to_owned().concat("-").concat(short.as_str()),
    }
}

} // verus!
