//! Upload data plane: per-file progress accounting. After each chunk the
//! decorator around the byte stream reports a percentage that is
//! non-decreasing over the life of the upload, stays below one hundred
//! until every byte has been read, reaches exactly one hundred at
//! completion, and is clamped there should a transport ever over-deliver.

use vstd::prelude::*;

verus! {

/// One file queued for upload: its local source, the identifier the UI
/// tracks it by, and the name shown to the receiver.
pub struct FileUploadInfo {
    pub file_path: String,
    pub file_uuid: String,
    pub name: String,
}

/// The percentage reported after `uploaded` of `total` bytes: the rounded
/// share, held below `100` until the upload is complete, `100` from
/// completion on (and for an empty file), and never above `100`.
pub open spec fn spec_percent(uploaded: int, total: int) -> int {
    if total <= 0 {
        100
    } else if uploaded >= total {
        100
    } else {
        let rounded = (200 * uploaded + total) / (2 * total);
        if rounded > 99 {
            99
        } else {
            rounded
        }
    }
}

/// Compute the reported percentage.
pub fn percent_done(uploaded: u64, total: u64) -> (r: u8)
    ensures
        r as int == spec_percent(uploaded as int, total as int),
        r <= 100,
{
    if total == 0 || uploaded >= total {
        100
    } else {
        let num: u128 = 200u128 * (uploaded as u128) + (total as u128);
        let den: u128 = 2u128 * (total as u128);
        let q = num / den;
        if q > 99 {
            99
        } else {
            q as u8
        }
    }
}

/// The reported percentage never decreases as bytes accumulate.
pub proof fn lemma_percent_monotone(u1: int, u2: int, total: int)
    requires
        0 <= u1 <= u2,
    ensures
        spec_percent(u1, total) <= spec_percent(u2, total),
{
    if total > 0 && u2 < total {
        vstd::arithmetic::div_mod::lemma_div_is_ordered(
            200 * u1 + total,
            200 * u2 + total,
            2 * total,
        );
    } else if total > 0 && u1 < total && u2 >= total {
        vstd::arithmetic::div_mod::lemma_div_pos_is_pos(200 * u1 + total, 2 * total);
    }
}

/// The reported percentage is exactly `100` precisely when every byte has
/// been read: no premature `100` before the stream is exhausted, and no
/// value below `100` at true completion.
pub proof fn lemma_percent_complete(uploaded: int, total: int)
    requires
        0 <= uploaded,
        0 <= total,
    ensures
        (spec_percent(uploaded, total) == 100) <==> (uploaded >= total),
{
}

/// Ephemeral counters of one active upload; owned by the task that emits
/// its progress.
pub struct UploadProgress {
    pub file_name: String,
    pub file_uuid: String,
    pub uploaded: u64,
    pub total: u64,
}

/// One progress notification: the payload of an `upload-progress` event.
pub struct ProgressEvent {
    pub filename: String,
    pub uuid: String,
    pub percent: u8,
}

impl UploadProgress {
    /// Fresh counters for an upload of `total` bytes.
    pub fn new(file_name: String, file_uuid: String, total: u64) -> (r: UploadProgress)
        ensures
            r.file_name@ == file_name@,
            r.file_uuid@ == file_uuid@,
            r.uploaded == 0,
            r.total == total,
    {
        UploadProgress { file_name, file_uuid, uploaded: 0, total }
    }

    /// Account one chunk of `len` bytes read from the source and build the
    /// notification owed for it. The running count saturates rather than
    /// wraps, and the reported percentage is clamped at `100`.
    pub fn record_chunk(&mut self, len: u64) -> (ev: ProgressEvent)
        ensures
            final(self).file_name@ == old(self).file_name@,
            final(self).file_uuid@ == old(self).file_uuid@,
            final(self).total == old(self).total,
            final(self).uploaded == if old(self).uploaded + len <= u64::MAX {
                old(self).uploaded + len
            } else {
                u64::MAX as int
            },
            ev.filename@ == old(self).file_name@,
            ev.uuid@ == old(self).file_uuid@,
            ev.percent as int == spec_percent(final(self).uploaded as int, old(self).total as int),
    {
        let new_uploaded = if len > u64::MAX - self.uploaded {
            u64::MAX
        } else {
            self.uploaded + len
        };
        self.uploaded = new_uploaded;
        let percent = percent_done(self.uploaded, self.total);
        ProgressEvent {
            filename: self.file_name.clone(),
            uuid: self.file_uuid.clone(),
            percent,
        }
    }
}

/// The fallback MIME type for a source whose kind cannot be sniffed.
pub fn mime_or_default(sniffed: Option<String>) -> (r: String)
    ensures
        match sniffed {
            Some(m) => r@ == m@,
            None => r@ == "application/octet-stream"@,
        },
{
    match sniffed {
        Some(m) => m,
        None => "application/octet-stream".to_owned(),
    }
}

} // verus!
