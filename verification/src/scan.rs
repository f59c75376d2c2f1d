//! Scanning one session: what is remembered of its log is used as long as the file does not
//! change, else the file is read and what it says is remembered.

use vstd::prelude::*;

use crate::cache;
use crate::cache::CachedScan;
use crate::cache::FileStamp;
use crate::cache::PathMap;
use crate::counts;
use crate::usage;
use crate::usage::FileAgg;
use crate::usage_log;
use crate::usage_report::SessionScan;

verus! {

/// The log of a session: the directory it stands in, its name, its path as it is shown, and
/// the bytes of its path.
pub struct SessionFile {
    pub slug: String,
    pub session_id: String,
    pub shown: String,
    pub path: Vec<u8>,
}

/// What to do about a log.
pub enum ScanStep {
    /// Read the file.
    Read,
    /// This is what the log says.
    Done(SessionScan),
    /// The log counts more tokens than fit.
    TooMuch,
}

/// The step says of the log what `agg` and `cwd` say.
pub open spec fn says(
    r: ScanStep,
    file: SessionFile,
    agg: FileAgg,
    cwd: Option<Seq<char>>,
) -> bool {
    &&& r matches ScanStep::Done(s)
    &&& s.wf()
    &&& s.slug@ == file.slug@
    &&& s.session_id@ == file.session_id@
    &&& s.path@ == file.shown@
    &&& s.result matches Ok(x)
    &&& x.0.counts == agg.counts
    &&& counts::rows(x.0.by_model@) == counts::rows(agg.by_model@)
    &&& usage_log::text_view(x.1) == cwd
}

/// The step says why the log cannot be read.
pub open spec fn says_error(r: ScanStep, file: SessionFile, e: Seq<char>) -> bool {
    &&& r matches ScanStep::Done(s)
    &&& s.wf()
    &&& s.slug@ == file.slug@
    &&& s.session_id@ == file.session_id@
    &&& s.path@ == file.shown@
    &&& s.result matches Err(t)
    &&& t@ == e
}

fn scanned(file: &SessionFile, result: Result<(FileAgg, Option<String>), String>) -> (r: ScanStep)
    requires
        result matches Ok(x) ==> x.0.wf(),
    ensures
        match result {
            Ok(x) => says(r, *file, x.0, usage_log::text_view(x.1)),
            Err(e) => says_error(r, *file, e@),
        },
{
    ScanStep::Done(
        SessionScan {
            slug: file.slug.clone(),
            session_id: file.session_id.clone(),
            path: file.shown.clone(),
            result,
        },
    )
}

/// What to do about a log before its file is read: use what is remembered where the file
/// has not changed, else read it.
pub fn scan_cached(
    cache: &PathMap<CachedScan>,
    file: &SessionFile,
    stamp: &Option<FileStamp>,
) -> (r: ScanStep)
    requires
        cache::cache_wf(cache@),
    ensures
        if cache::hit(cache@, file.path@, *stamp) {
            says(
                r,
                *file,
                cache@[file.path@].agg,
                usage_log::text_view(cache@[file.path@].cwd),
            )
        } else {
            r is Read
        },
{
    match cache::cached_scan(cache, &file.path, stamp) {
        Some(x) => scanned(file, Ok(x)),
        None => ScanStep::Read,
    }
}

/// What an outcome of aggregating a log leads to, and what is remembered then.
pub open spec fn leads_to(
    before: Map<Seq<u8>, CachedScan>,
    after: Map<Seq<u8>, CachedScan>,
    file: SessionFile,
    stamp: Option<FileStamp>,
    outcome: Option<Result<(FileAgg, Option<String>), String>>,
    r: ScanStep,
) -> bool {
    match outcome {
        None => r is TooMuch && after == before,
        Some(Err(e)) => says_error(r, file, e@) && after == before,
        Some(Ok(x)) => {
            &&& says(r, file, x.0, usage_log::text_view(x.1))
            &&& stamp is None ==> after == before
            &&& stamp is Some ==> {
                &&& cache::hit(after, file.path@, stamp)
                &&& after[file.path@].agg.counts == x.0.counts
                &&& counts::rows(after[file.path@].agg.by_model@) == counts::rows(
                    x.0.by_model@,
                )
                &&& usage_log::text_view(after[file.path@].cwd) == usage_log::text_view(x.1)
                &&& forall|k: Seq<u8>|
                    k != file.path@ ==> (#[trigger] after.contains_key(k)
                        <==> before.contains_key(k)) && after[k] == before[k]
            }
        },
    }
}

/// What a log says whose aggregate is known: it is remembered under the file's stamp.
pub fn scan_aggregated(
    cache: &mut PathMap<CachedScan>,
    file: &SessionFile,
    stamp: Option<FileStamp>,
    outcome: Option<Result<(FileAgg, Option<String>), String>>,
) -> (r: ScanStep)
    requires
        cache::cache_wf(old(cache)@),
        outcome matches Some(Ok(x)) ==> x.0.wf(),
    ensures
        cache::cache_wf(final(cache)@),
        leads_to(old(cache)@, final(cache)@, *file, stamp, outcome, r),
{
    match outcome {
        None => ScanStep::TooMuch,
        Some(Err(e)) => scanned(file, Err(e)),
        Some(Ok(x)) => {
            cache::remember(cache, copied_bytes(&file.path), stamp, &x.0, &x.1);
            scanned(file, Ok(x))
        },
    }
}

fn copied_bytes(v: &Vec<u8>) -> (r: Vec<u8>)
    ensures
        r@ == v@,
{
    let mut out: Vec<u8> = Vec::new();
    let mut i: usize = 0;
    while i < v.len()
        invariant
            i <= v.len(),
            out@ == v@.take(i as int),
        decreases v.len() - i,
    {
        out.push(v[i]);
        assert(v@.take(i + 1) == v@.take(i as int).push(v@[i as int]));
        i += 1;
    }
    assert(v@.take(i as int) == v@);
    out
}

/// What a log says whose file was read, or could not be read.
pub fn scan_file(
    cache: &mut PathMap<CachedScan>,
    file: &SessionFile,
    stamp: Option<FileStamp>,
    data: &Result<Vec<u8>, String>,
) -> (r: ScanStep)
    requires
        cache::cache_wf(old(cache)@),
    ensures
        cache::cache_wf(final(cache)@),
        match *data {
            Err(e) => says_error(r, *file, e@) && final(cache)@ == old(cache)@,
            Ok(b) => exists|outcome: Option<Result<(FileAgg, Option<String>), String>>| #[trigger]
                usage::file_outcome(outcome, b@) && leads_to(
                    old(cache)@,
                    final(cache)@,
                    *file,
                    stamp,
                    outcome,
                    r,
                ),
        },
{
    match data {
        Err(e) => scanned(file, Err(e.clone())),
        Ok(b) => {
            let outcome = usage::aggregate_file(b.as_slice());
            assert(usage::file_outcome(outcome, b@));
            scan_aggregated(cache, file, stamp, outcome)
        },
    }
}

/// A file that has not changed says again what it said when it was read.
pub proof fn law_unchanged_file_says_the_same(
    before: Map<Seq<u8>, CachedScan>,
    after: Map<Seq<u8>, CachedScan>,
    file: SessionFile,
    stamp: Option<FileStamp>,
    x: (FileAgg, Option<String>),
    first: ScanStep,
    again: ScanStep,
)
    requires
        stamp is Some,
        leads_to(before, after, file, stamp, Some(Ok(x)), first),
        says(
            again,
            file,
            after[file.path@].agg,
            usage_log::text_view(after[file.path@].cwd),
        ),
    ensures
        cache::hit(after, file.path@, stamp),
        says(again, file, x.0, usage_log::text_view(x.1)),
{
}

} // verus!
