//! Downloading one image: what to do next, and the messages that the
//! progress bars show.
use vstd::prelude::*;
use vstd::utf8::encode_utf8;
use crate::text::{append_str, owned};

verus! {

/// The width, in bytes, to which messages are padded with spaces.
pub const MESSAGE_WIDTH: usize = 30;

/// The label of the image bar once an image has been saved.
pub const IMAGE_LABEL: &'static str = "Image:";

/// `n` spaces.
pub open spec fn spaces(n: nat) -> Seq<char> {
    Seq::new(n, |i: int| ' ')
}

/// The number of bytes of the UTF-8 encoding of `s`.
pub open spec fn byte_len(s: Seq<char>) -> nat {
    encode_utf8(s).len()
}

/// `label` padded with spaces to `MESSAGE_WIDTH` bytes.
pub open spec fn padded(label: Seq<char>) -> Seq<char> {
    label + spaces((MESSAGE_WIDTH - byte_len(label)) as nat)
}

/// The label of the manga bar.
pub open spec fn manga_label_spec(manga_id: Seq<char>, checking: bool) -> Seq<char> {
    if checking {
        "Manga ["@ + manga_id + " Checking]:"@
    } else {
        "Manga ["@ + manga_id + "]:"@
    }
}

/// The label of the chapter bar.
pub open spec fn chapter_label_spec(chapter_id: Seq<char>, checking: bool) -> Seq<char> {
    if checking {
        "Chapter ["@ + chapter_id + " Checking]:"@
    } else {
        "Chapter ["@ + chapter_id + "]:"@
    }
}

/// The label of the manga bar: the manga's id, and whether its image was
/// found already on disk (`checking`) rather than downloaded.
pub fn manga_label(manga_id: &str, checking: bool) -> (label: String)
    ensures
        label@ == manga_label_spec(manga_id@, checking),
{
    let mut label = owned("Manga [");
    append_str(&mut label, manga_id);
    if checking {
        append_str(&mut label, " Checking]:");
    } else {
        append_str(&mut label, "]:");
    }
    label
}

/// The label of the chapter bar, as `manga_label`.
pub fn chapter_label(chapter_id: &str, checking: bool) -> (label: String)
    ensures
        label@ == chapter_label_spec(chapter_id@, checking),
{
    let mut label = owned("Chapter [");
    append_str(&mut label, chapter_id);
    if checking {
        append_str(&mut label, " Checking]:");
    } else {
        append_str(&mut label, "]:");
    }
    label
}

/// A progress message: `label` padded with spaces to `MESSAGE_WIDTH` bytes.
/// Labels longer than that are refused.
pub fn progress_message(label: &str) -> (message: String)
    requires
        byte_len(label@) <= MESSAGE_WIDTH,
    ensures
        message@ == padded(label@),
{
    let mut message = owned(label);
    let n = label.len();
    let mut k = n;
    while k < MESSAGE_WIDTH
        invariant
            n == byte_len(label@),
            n <= k <= MESSAGE_WIDTH,
            message@ == label@ + spaces((k - n) as nat),
        decreases MESSAGE_WIDTH - k,
    {
        crate::text::append_char(&mut message, ' ');
        assert(label@ + spaces((k + 1 - n) as nat) =~= (label@ + spaces((k - n) as nat)).push(' '));
        k = k + 1;
    }
    message
}

/// What happened in the last step of downloading an image.
#[derive(Debug, Clone, Copy, PartialEq, Eq, Structural)]
pub enum DownloadEvent {
    /// Whether the image's file was found on disk.
    Checked(bool),
    /// Whether the request for the image succeeded.
    Fetched(bool),
}

/// What to do next.
#[derive(Debug, Clone, Copy, PartialEq, Eq, Structural)]
pub enum DownloadAction {
    /// Look whether the image's file exists.
    Check,
    /// Request the image.
    Fetch,
    /// Show the "checking" messages and count the image: done.
    ReportExisting,
    /// Write the image's file, show the download messages and count the
    /// image: done.
    SaveAndReport,
}

/// The next step of downloading an image after `event`: an image already on
/// disk is only counted, a missing one is requested, a received one saved,
/// and a failed request is retried from the check on.
pub fn next_download_action(event: DownloadEvent) -> (action: DownloadAction)
    ensures
        action == match event {
            DownloadEvent::Checked(true) => DownloadAction::ReportExisting,
            DownloadEvent::Checked(false) => DownloadAction::Fetch,
            DownloadEvent::Fetched(true) => DownloadAction::SaveAndReport,
            DownloadEvent::Fetched(false) => DownloadAction::Check,
        },
{
    match event {
        DownloadEvent::Checked(exists) => if exists {
            DownloadAction::ReportExisting
        } else {
            DownloadAction::Fetch
        },
        DownloadEvent::Fetched(ok) => if ok {
            DownloadAction::SaveAndReport
        } else {
            DownloadAction::Check
        },
    }
}

proof fn lemma_encode_concat(a: Seq<char>, b: Seq<char>)
    ensures
        encode_utf8(a + b) == encode_utf8(a) + encode_utf8(b),
    decreases a.len(),
{
    if a.len() == 0 {
        assert(a + b =~= b);
        assert(encode_utf8(a) + encode_utf8(b) =~= encode_utf8(b));
    } else {
        lemma_encode_concat(a.drop_first(), b);
        assert((a + b).drop_first() =~= a.drop_first() + b);
        assert((a + b)[0] == a[0]);
        assert(encode_utf8(a + b) =~= encode_utf8(a) + encode_utf8(b));
    }
}

proof fn lemma_spaces_bytes(n: nat)
    ensures
        byte_len(spaces(n)) == n,
    decreases n,
{
    if n > 0 {
        lemma_spaces_bytes((n - 1) as nat);
        assert(spaces(n).drop_first() =~= spaces((n - 1) as nat));
        assert(spaces(n)[0] == ' ');
        assert((' ' as u32) == 32u32);
    }
}

/// Every progress message is exactly `MESSAGE_WIDTH` bytes long, so the bars
/// line up.
pub proof fn lemma_messages_line_up(label: Seq<char>)
    requires
        byte_len(label) <= MESSAGE_WIDTH,
    ensures
        byte_len(padded(label)) == MESSAGE_WIDTH,
{
    let n = (MESSAGE_WIDTH - byte_len(label)) as nat;
    lemma_encode_concat(label, spaces(n));
    lemma_spaces_bytes(n);
}

} // verus!
