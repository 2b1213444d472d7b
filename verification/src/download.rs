//! The decisions of the downloaders: which downloader a format needs, when a
//! failed request is tried again, how an interrupted download resumes, and
//! how long to pause to keep to a rate limit. The requests, the files and
//! the clock stay with the caller, which hands in what happened.
use crate::text::{append_chars, chars_eq_str, chars_of, decimal, decimal_vec, string_from};
use crate::utils::{lemma_pow2_facts, lemma_pow2_mono, pow2, pow2_u128};
use vstd::prelude::*;

verus! {

broadcast use vstd::string::group_string_axioms;

// ───────────────────────── which downloader ─────────────────────────

/// The two ways a format is fetched.
#[derive(Debug, Clone, Copy, PartialEq, Eq)]
pub enum DownloadKind {
    /// Segment by segment, through an HLS playlist.
    Hls,
    /// In one HTTP request, resumable.
    Http,
}

/// HLS protocols (`hls`, `m3u8`, `m3u8_native`) go to the HLS downloader;
/// every other protocol to plain HTTP.
pub open spec fn spec_download_kind(protocol: Seq<char>) -> DownloadKind {
    if protocol == "hls"@ || protocol == "m3u8"@ || protocol == "m3u8_native"@ {
        DownloadKind::Hls
    } else {
        DownloadKind::Http
    }
}

/// The downloader a format's protocol calls for.
pub fn download_kind(protocol: &str) -> (k: DownloadKind)
    ensures
        k == spec_download_kind(protocol@),
{
    let p = chars_of(protocol);
    if chars_eq_str(&p, "hls") || chars_eq_str(&p, "m3u8") || chars_eq_str(&p, "m3u8_native") {
        DownloadKind::Hls
    } else {
        DownloadKind::Http
    }
}

// ───────────────────────── retries ─────────────────────────

/// The longest pause between HTTP download attempts is 2^6 seconds.
pub const HTTP_BACKOFF_CAP: u32 = 6;

/// The longest pause between attempts at one HLS segment is 2^5 seconds.
pub const SEGMENT_BACKOFF_CAP: u32 = 5;

/// After `attempt` retries have been made and one more attempt failed: the
/// number of the next retry and the seconds to wait first (2 to the power of
/// that number, at most 2 to the power of `cap`), or `None` once `retries`
/// retries have been spent.
pub open spec fn spec_retry(attempt: u32, retries: u32, cap: u32) -> Option<(u32, u64)> {
    if attempt < retries {
        let next = attempt + 1;
        Some((next as u32, pow2(if next < cap { next as nat } else { cap as nat }) as u64))
    } else {
        None
    }
}

/// Decides whether to try again after a failed attempt, and how long to wait.
pub fn retry_after(attempt: u32, retries: u32, cap: u32) -> (r: Option<(u32, u64)>)
    requires
        cap <= 63,
    ensures
        r == spec_retry(attempt, retries, cap),
{
    if attempt < retries {
        let next = attempt + 1;
        let e = if next < cap {
            next
        } else {
            cap
        };
        let p = pow2_u128(e);
        proof {
            lemma_pow2_mono(e as nat, 63);
            lemma_pow2_63();
        }
        Some((next, p as u64))
    } else {
        None
    }
}

proof fn lemma_pow2_63()
    ensures
        pow2(63) == 0x8000_0000_0000_0000nat,
        pow2(1) == 2,
{
    lemma_pow2_facts();
    assert(pow2(64) == 2 * pow2(63));
    assert(pow2(0) == 1);
    assert(pow2(1) == 2 * pow2(0));
}

/// Retries come one at a time and stop after `retries` of them; each pause
/// is at least 2 seconds, at most 2^cap seconds, and never shorter than the
/// one before.
pub proof fn law_retry_backoff(attempt: u32, retries: u32, cap: u32)
    requires
        1 <= cap <= 63,
    ensures
        spec_retry(attempt, retries, cap) is Some <==> attempt < retries,
        spec_retry(attempt, retries, cap) matches Some((n, d)) ==> n == attempt + 1 && 2 <= d
            <= pow2(cap as nat),
        spec_retry(attempt, retries, cap) matches Some((n, d)) ==> (spec_retry(n, retries, cap) matches Some((
            _,
            d2,
        )) ==> d <= d2),
{
    if attempt < retries {
        let next = attempt + 1;
        let e: nat = if next < cap { next as nat } else { cap as nat };
        lemma_pow2_mono(1, e);
        lemma_pow2_mono(e, cap as nat);
        lemma_pow2_mono(cap as nat, 63);
        lemma_pow2_63();
        if next < retries {
            let e2: nat = if next + 1 < cap { (next + 1) as nat } else { cap as nat };
            lemma_pow2_mono(e, e2);
            lemma_pow2_mono(e2, 63);
        }
    }
}

// ───────────────────────── resuming ─────────────────────────

/// The `Range` header that asks for the rest of a partial file of
/// `existing` bytes; none for an empty or missing one.
pub open spec fn spec_resume_range(existing: u64) -> Option<Seq<char>> {
    if existing > 0 {
        Some("bytes="@ + decimal(existing as nat) + "-"@)
    } else {
        None
    }
}

/// The `Range` header value for resuming after `existing` bytes.
pub fn resume_range(existing: u64) -> (r: Option<String>)
    ensures
        crate::types::opt_view(r) == spec_resume_range(existing),
{
    if existing > 0 {
        let mut v = chars_of("bytes=");
        let d = decimal_vec(existing);
        append_chars(&mut v, &d);
        let dash = chars_of("-");
        append_chars(&mut v, &dash);
        Some(string_from(&v))
    } else {
        None
    }
}

/// How to write the body of an accepted response.
#[derive(Debug, Clone, Copy, PartialEq, Eq)]
pub struct TransferPlan {
    /// Append to the partial file (else start it afresh).
    pub append: bool,
    /// The size the file will have, 0 when the server gives no length.
    pub total: u64,
    /// The length of the progress bar: the total, or `u64::MAX` when unknown.
    pub bar_length: u64,
}

/// A success status (2xx) is accepted: the body is appended exactly when
/// the server answered a resumed request with `206 Partial Content`, and the
/// expected total is the body's length plus what was there. Any other
/// status is refused.
pub open spec fn spec_plan_transfer(status: u16, existing: u64, content_length: Option<u64>) -> Option<
    TransferPlan,
> {
    if 200 <= status <= 299 || status == 206 {
        let total: u64 = match content_length {
            Some(l) => (l + existing) as u64,
            None => 0,
        };
        Some(
            TransferPlan {
                append: existing > 0 && status == 206,
                total: total,
                bar_length: if total > 0 {
                    total
                } else {
                    u64::MAX
                },
            },
        )
    } else {
        None
    }
}

/// Decides what to do with a response to a download request; `Err` holds
/// the refused status.
pub fn plan_transfer(status: u16, existing: u64, content_length: Option<u64>) -> (r: Result<
    TransferPlan,
    u16,
>)
    requires
        content_length matches Some(l) ==> l + existing <= u64::MAX,
    ensures
        match r {
            Ok(p) => spec_plan_transfer(status, existing, content_length) == Some(p),
            Err(s) => spec_plan_transfer(status, existing, content_length) is None && s == status,
        },
{
    if (200 <= status && status <= 299) || status == 206 {
        let total: u64 = match content_length {
            Some(l) => l + existing,
            None => 0,
        };
        Ok(
            TransferPlan {
                append: existing > 0 && status == 206,
                total: total,
                bar_length: if total > 0 {
                    total
                } else {
                    u64::MAX
                },
            },
        )
    } else {
        Err(status)
    }
}

/// A partial file is resumed: the request asks for the bytes after it, a
/// `206 Partial Content` answer is appended to it and the expected size
/// counts it; without a partial file the download starts afresh.
pub proof fn law_resume_partial_download(existing: u64, content_length: Option<u64>)
    requires
        content_length matches Some(l) ==> l + existing <= u64::MAX,
    ensures
        existing > 0 ==> spec_resume_range(existing) is Some,
        existing > 0 ==> (spec_plan_transfer(206, existing, content_length) matches Some(p) && p.append
            && (content_length matches Some(l) ==> p.total == l + existing)),
        existing == 0 ==> spec_resume_range(existing) is None,
        existing == 0 ==> forall|status: u16|
            (#[trigger] spec_plan_transfer(status, existing, content_length) matches Some(p) ==> !p.append),
{
}

/// The message for a refused download request.
pub fn refused_message(status: u16, url: &str) -> (m: String)
    ensures
        m@ == "HTTP "@ + decimal(status as nat) + " for "@ + url@,
{
    let mut v = chars_of("HTTP ");
    let d = decimal_vec(status as u64);
    append_chars(&mut v, &d);
    let mid = chars_of(" for ");
    append_chars(&mut v, &mid);
    let u = chars_of(url);
    append_chars(&mut v, &u);
    string_from(&v)
}

// ───────────────────────── rate limiting ─────────────────────────

/// Checking the rate waits until more than a tenth of a second has passed.
pub open spec fn check_interval_ns() -> int {
    100_000_000
}

/// After `bytes` bytes arrived in `elapsed_ns` nanoseconds since the last
/// check, under a limit of `limit` bytes per second: `None` while no more
/// than a tenth of a second has passed (keep counting); else the pause in
/// milliseconds before counting afresh: none when the rate kept to the
/// limit, else what brings the average down to the limit, rounded down
/// (`u64::MAX` for a zero limit).
pub open spec fn spec_throttle(bytes: u64, limit: u64, elapsed_ns: u64) -> Option<u64> {
    if elapsed_ns <= check_interval_ns() {
        None
    } else if bytes * 1_000_000_000 <= limit * elapsed_ns {
        Some(0)
    } else if limit == 0 {
        Some(u64::MAX)
    } else {
        let ms = (bytes * 1_000_000_000 - limit * elapsed_ns) / (limit * 1_000_000);
        Some(
            if ms > u64::MAX {
                u64::MAX
            } else {
                ms as u64
            },
        )
    }
}

/// Decides, during a rate-limited download, whether to check the rate now
/// and how long to pause.
pub fn throttle(bytes: u64, limit: u64, elapsed_ns: u64) -> (r: Option<u64>)
    ensures
        r == spec_throttle(bytes, limit, elapsed_ns),
{
    if elapsed_ns <= 100_000_000 {
        return None;
    }
    proof {
        assert((bytes as int) * 1_000_000_000 <= 0xffff_ffff_ffff_ffff * 1_000_000_000) by (nonlinear_arith);
        assert((limit as int) * (elapsed_ns as int) <= 0xffff_ffff_ffff_ffff * 0xffff_ffff_ffff_ffff) by (nonlinear_arith);
    }
    let b: u128 = bytes as u128 * 1_000_000_000;
    let l: u128 = limit as u128 * elapsed_ns as u128;
    if b <= l {
        Some(0)
    } else if limit == 0 {
        Some(u64::MAX)
    } else {
        let d: u128 = limit as u128 * 1_000_000;
        let ms = (b - l) / d;
        if ms > u64::MAX as u128 {
            Some(u64::MAX)
        } else {
            Some(ms as u64)
        }
    }
}

/// A pause is asked for only when the bytes since the last check came in
/// faster than the limit, and never while the check interval is running.
pub proof fn law_throttle_only_when_too_fast(bytes: u64, limit: u64, elapsed_ns: u64)
    ensures
        elapsed_ns <= check_interval_ns() ==> spec_throttle(bytes, limit, elapsed_ns) is None,
        spec_throttle(bytes, limit, elapsed_ns) matches Some(ms) ==> (ms > 0 <==> bytes
            * 1_000_000_000 > limit * elapsed_ns && (limit == 0 || bytes * 1_000_000_000 - limit
            * elapsed_ns >= limit * 1_000_000)),
{
    if elapsed_ns > check_interval_ns() && bytes * 1_000_000_000 > limit * elapsed_ns && limit > 0 {
        let num = bytes * 1_000_000_000 - limit * elapsed_ns;
        let den = limit * 1_000_000;
        assert(den > 0) by (nonlinear_arith)
            requires
                limit > 0,
                den == limit * 1_000_000,
        ;
        assert(num / den > 0 <==> num >= den) by (nonlinear_arith)
            requires
                num > 0,
                den > 0,
        ;
    }
}

} // verus!
