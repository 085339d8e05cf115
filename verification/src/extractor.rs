//! The checks of `.rmskin` package extraction: which archive entries are
//! refused (symbolic links, names that climb out of the destination) and
//! the byte quota that stops decompression bombs.
use crate::text::{split_on, split_str, str_eq, to_chars};
use crate::vfs::slashes;
use vstd::prelude::*;

verus! {

/// Maximum cumulative decompressed extraction size (500 MiB).
pub const MAX_EXTRACTION_BYTES: u64 = 524288000u64;

/// Why an extraction was stopped.
#[derive(Debug, Clone, PartialEq, Eq)]
pub enum ExtractionError {
    ZipSlipDetected,
    SymlinkForbidden,
    HardlinkForbidden,
    QuotaExceeded,
    /// The archive could not be read (the archive library's message).
    ArchiveError(String),
    /// A file operation failed (its message).
    IoError(String),
}

/// Statistics about a completed extraction.
#[derive(Debug, Clone, PartialEq, Eq)]
pub struct ExtractionReport {
    pub files_extracted: usize,
    pub total_bytes: u64,
}

/// Statistics about a completed packaging.
#[derive(Debug, Clone, PartialEq, Eq)]
pub struct PackageReport {
    pub files_packaged: usize,
    pub total_uncompressed_bytes: u64,
    pub package_size: u64,
}

/// A Unix file mode of a symbolic link (`S_IFLNK`).
pub open spec fn symlink_mode(mode: u32) -> bool {
    mode & 0o170000 == 0o120000
}

/// Whether an entry is a symbolic link: flagged as one, or with a Unix
/// mode of type `S_IFLNK`.
pub fn entry_is_symlink(flagged: bool, unix_mode: Option<u32>) -> (r: bool)
    ensures
        r == (flagged || (unix_mode matches Some(m) && symlink_mode(m))),
{
    flagged || match unix_mode {
        Some(m) => (m & 0o170000) == 0o120000,
        None => false,
    }
}

/// An entry name that would leave the destination once `\` is read as a
/// separator: it is absolute, or one of its components is `..`.
pub open spec fn name_escapes(name: Seq<char>) -> bool {
    let n = slashes(name);
    ||| (n.len() > 0 && n[0] == '/')
    ||| exists|i: int| 0 <= i < split_on(n, '/').len() && #[trigger] split_on(n, '/')[i] == ".."@
}

/// Checks an archive entry's raw name (anti Zip-Slip).
pub fn entry_name_escapes(raw_name: &str) -> (r: bool)
    ensures
        r == name_escapes(raw_name@),
{
    let v = to_chars(raw_name);
    let mut n = String::new();
    let mut i: usize = 0;
    while i < v.len()
        invariant
            v@ == raw_name@,
            i <= v@.len(),
            n@ == slashes(v@.take(i as int)),
        decreases v.len() - i,
    {
        if v[i] == '\\' {
            n.push('/');
        } else {
            n.push(v[i]);
        }
        i = i + 1;
        assert(n@ =~= slashes(v@.take(i as int)));
    }
    assert(v@.take(v@.len() as int) =~= v@);
    assert(n@ == slashes(raw_name@));
    let nc = to_chars(n.as_str());
    if nc.len() > 0 && nc[0] == '/' {
        return true;
    }
    let parts = split_str(n.as_str(), '/');
    let ghost pv = crate::text::views(parts@);
    let mut j: usize = 0;
    while j < parts.len()
        invariant
            pv == crate::text::views(parts@),
            pv == split_on(n@, '/'),
            n@ == slashes(raw_name@),
            j <= parts@.len(),
            forall|k: int| 0 <= k < j ==> pv[k] != ".."@,
        decreases parts.len() - j,
    {
        if str_eq(parts[j].as_str(), "..") {
            assert(pv[j as int] == ".."@);
            assert(n@ == slashes(raw_name@));
            assert(split_on(slashes(raw_name@), '/')[j as int] == ".."@);
            return true;
        }
        j = j + 1;
    }
    false
}

/// Progress of an extraction against its byte quota.
#[derive(Debug, Clone, PartialEq, Eq)]
pub struct ExtractionProgress {
    pub files_extracted: usize,
    pub total_bytes: u64,
    pub max_bytes: u64,
}

impl ExtractionProgress {
    /// What has been written never exceeds the quota.
    pub open spec fn wf(&self) -> bool {
        self.total_bytes <= self.max_bytes
    }

    /// Nothing extracted yet, with a quota of `max_bytes`.
    pub fn new(max_bytes: u64) -> (r: Self)
        ensures
            r.wf(),
            r == (ExtractionProgress { files_extracted: 0, total_bytes: 0, max_bytes }),
    {
        ExtractionProgress { files_extracted: 0, total_bytes: 0, max_bytes }
    }

    /// The bytes still allowed.
    pub fn remaining(&self) -> (r: u64)
        requires
            self.wf(),
        ensures
            r == self.max_bytes - self.total_bytes,
    {
        self.max_bytes - self.total_bytes
    }

    /// Checks a file entry's declared size before anything is written: it
    /// is refused when it would take the total past the quota.
    pub fn check_declared(&self, declared: u64) -> (r: Result<(), ExtractionError>)
        requires
            self.wf(),
        ensures
            r is Ok <==> self.total_bytes + declared <= self.max_bytes,
            r is Err ==> r == Err::<(), ExtractionError>(ExtractionError::QuotaExceeded),
    {
        if declared > self.max_bytes - self.total_bytes {
            Err(ExtractionError::QuotaExceeded)
        } else {
            Ok(())
        }
    }

    /// Records a file of which `written` bytes were copied, the copy being
    /// bounded one byte past the remaining quota: more than the remaining
    /// quota means the file is refused.
    pub fn record_file(&mut self, written: u64) -> (r: Result<(), ExtractionError>)
        requires
            old(self).wf(),
            old(self).files_extracted < usize::MAX,
        ensures
            final(self).wf(),
            final(self).max_bytes == old(self).max_bytes,
            r is Ok <==> old(self).total_bytes + written <= old(self).max_bytes,
            r is Ok ==> final(self).files_extracted == old(self).files_extracted + 1
                && final(self).total_bytes == old(self).total_bytes + written,
            r is Err ==> r == Err::<(), ExtractionError>(ExtractionError::QuotaExceeded)
                && *final(self) == *old(self),
    {
        if written > self.max_bytes - self.total_bytes {
            return Err(ExtractionError::QuotaExceeded);
        }
        self.files_extracted = self.files_extracted + 1;
        self.total_bytes = self.total_bytes + written;
        Ok(())
    }

    /// The report of the extraction so far.
    pub fn report(&self) -> (r: ExtractionReport)
        ensures
            r == (ExtractionReport {
                files_extracted: self.files_extracted,
                total_bytes: self.total_bytes,
            }),
    {
        ExtractionReport { files_extracted: self.files_extracted, total_bytes: self.total_bytes }
    }
}

} // verus!
verus! {

/// What is known of an archive entry before anything is written for it:
/// the archive's symlink flag and Unix mode, its raw name, whether the
/// archive library gives it a safe relative path (`enclosed_name`),
/// whether that path still holds a parent, root or prefix component, and
/// whether a directory on the way to it under the destination is a
/// symbolic link.
#[derive(Debug, Clone, PartialEq, Eq)]
pub struct EntryFacts {
    pub symlink_flag: bool,
    pub unix_mode: Option<u32>,
    pub name: String,
    pub enclosed: bool,
    pub enclosed_escapes: bool,
    pub symlinked_ancestor: bool,
}

/// The verdict on an entry before writing, checks in this order: a
/// symbolic link is refused; a name that escapes, has no safe path, or
/// whose path escapes is a Zip-Slip; a symlinked directory on the way is
/// refused.
pub open spec fn entry_verdict(f: EntryFacts) -> Result<(), ExtractionError> {
    if f.symlink_flag || (f.unix_mode matches Some(m) && symlink_mode(m)) {
        Err(ExtractionError::SymlinkForbidden)
    } else if name_escapes(f.name@) || !f.enclosed || f.enclosed_escapes {
        Err(ExtractionError::ZipSlipDetected)
    } else if f.symlinked_ancestor {
        Err(ExtractionError::SymlinkForbidden)
    } else {
        Ok(())
    }
}

/// Checks an entry before anything is written for it.
pub fn check_entry(f: &EntryFacts) -> (r: Result<(), ExtractionError>)
    ensures
        r == entry_verdict(*f),
{
    if entry_is_symlink(f.symlink_flag, f.unix_mode) {
        return Err(ExtractionError::SymlinkForbidden);
    }
    if entry_name_escapes(f.name.as_str()) || !f.enclosed || f.enclosed_escapes {
        return Err(ExtractionError::ZipSlipDetected);
    }
    if f.symlinked_ancestor {
        return Err(ExtractionError::SymlinkForbidden);
    }
    Ok(())
}

/// Checks the file already at an entry's target, if any: a symbolic link
/// is refused, and so is a file with more than one hard link (writing it
/// would change the file elsewhere too).
pub fn check_existing_target(is_symlink: bool, link_count: Option<u64>) -> (r: Result<(), ExtractionError>)
    ensures
        r == (if is_symlink {
            Err(ExtractionError::SymlinkForbidden)
        } else if link_count matches Some(n) && n > 1 {
            Err(ExtractionError::HardlinkForbidden)
        } else {
            Ok(())
        }),
{
    if is_symlink {
        return Err(ExtractionError::SymlinkForbidden);
    }
    match link_count {
        Some(n) => if n > 1 {
            Err(ExtractionError::HardlinkForbidden)
        } else {
            Ok(())
        },
        None => Ok(()),
    }
}

} // verus!
