//! Recognition of source-repository URLs and extraction of the package
//! name they refer to.  A repository URL names its package in the path
//! component after the host: the run of characters up to the next path
//! separator, which must end in the repository extension.

use vstd::prelude::*;

use crate::errors::ResolveError;
use crate::text;

verus! {

/// The host-and-slash marker a package URL must contain.
pub open spec fn host_marker() -> Seq<char> {
    "aur.archlinux.org/"@
}

/// End of the path segment that begins at `from`: the position of the next
/// path separator, or the end of the URL.
pub open spec fn segment_end(url: Seq<char>, from: int) -> int
    decreases url.len() - from when 0 <= from
{
    if !(0 <= from < url.len()) {
        from
    } else if url[from] == '/' {
        from
    } else {
        segment_end(url, from + 1)
    }
}

/// The last position at or below `i`, strictly after `s0`, where the
/// repository extension begins; scanning downward keeps the captured name
/// as long as possible.
pub open spec fn last_git_before(url: Seq<char>, s0: int, i: int) -> Option<int>
    decreases i - s0 when s0 <= i
{
    if i <= s0 {
        Option::None
    } else if text::matches_at(url, ".git"@, i) {
        Option::Some(i)
    } else {
        last_git_before(url, s0, i - 1)
    }
}

/// The package name captured from the path segment that begins at `s0`:
/// everything from `s0` up to the last occurrence of the repository
/// extension inside the segment, provided at least one character precedes
/// it.
pub open spec fn capture_seg(url: Seq<char>, s0: int) -> Option<Seq<char>> {
    let e = segment_end(url, s0);
    let top = if e - 4 <= s0 {
        s0
    } else {
        e - 4
    };
    match last_git_before(url, s0, top) {
        Option::None => Option::None,
        Option::Some(i) => Option::Some(url.subrange(s0, i)),
    }
}

#[via_fn]
proof fn extract_from_decreases(url: Seq<char>, p: int) {
    reveal_strlit("aur.archlinux.org/");
}

/// The name a URL refers to, scanning from position `p`: the capture at
/// the first position where the host marker matches and its path segment
/// yields a name.
pub open spec fn extract_from(url: Seq<char>, p: int) -> Option<Seq<char>>
    decreases url.len() - p when 0 <= p via extract_from_decreases
{
    if p + host_marker().len() > url.len() {
        Option::None
    } else if text::matches_at(url, host_marker(), p) && capture_seg(
        url,
        p + host_marker().len(),
    ) is Some {
        capture_seg(url, p + host_marker().len())
    } else {
        extract_from(url, p + 1)
    }
}

/// The package name a URL refers to, if any.
pub open spec fn extracted_name(url: Seq<char>) -> Option<Seq<char>> {
    extract_from(url, 0)
}

fn find_segment_end(url: &str, from: usize) -> (e: usize)
    requires
        from <= url@.len(),
    ensures
        e == segment_end(url@, from as int),
        from <= e <= url@.len(),
{
    let len = url.unicode_len();
    let mut i: usize = from;
    while i < len
        invariant
            len == url@.len(),
            from <= i <= len,
            segment_end(url@, from as int) == segment_end(url@, i as int),
        decreases len - i,
    {
        if url.get_char(i) == '/' {
            return i;
        }
        i += 1;
    }
    len
}

fn capture_segment(url: &str, s0: usize) -> (r: Option<String>)
    requires
        s0 <= url@.len(),
    ensures
        match r {
            Option::Some(name) => capture_seg(url@, s0 as int) == Option::Some(name@),
            Option::None => capture_seg(url@, s0 as int) is None,
        },
{
    proof {
        reveal_strlit(".git");
    }
    let e = find_segment_end(url, s0);
    if e - s0 < 4 {
        return Option::None;
    }
    let mut i: usize = e - 4;
    loop
        invariant
            s0 + 4 <= e <= url@.len(),
            e == segment_end(url@, s0 as int),
            s0 <= i <= e - 4,
            ".git"@.len() == 4,
            capture_seg(url@, s0 as int) == match last_git_before(url@, s0 as int, i as int) {
                Option::None => Option::None::<Seq<char>>,
                Option::Some(k) => Option::Some(url@.subrange(s0 as int, k)),
            },
        decreases i,
    {
        if i > s0 {
            if text::match_at(url, ".git", i) {
                let name = url.substring_char(s0, i);
                return Option::Some(name.to_owned());
            }
            i -= 1;
        } else {
            return Option::None;
        }
    }
}

/// Unit type grouping the URL operations of the source host.
pub struct Aur;

impl Aur {
    /// Whether a string is a package-repository URL of the source host: it
    /// mentions the host and ends in the repository extension.
    pub fn is_aur_url(url: &str) -> (r: bool)
        ensures
            r == (text::contains_seq(url@, "aur.archlinux.org"@) && text::ends_with(
                url@,
                ".git"@,
            )),
    {
        text::contains_substr(url, "aur.archlinux.org") && text::ends_with_str(url, ".git")
    }

    /// Extracts the package name a repository URL refers to, or reports the
    /// URL invalid when no path segment after the host marker yields one.
    pub fn extract_package_name(url: &str) -> (r: Result<String, ResolveError>)
        ensures
            match r {
                Result::Ok(name) => extracted_name(url@) == Option::Some(name@),
                Result::Err(e) => extracted_name(url@) is None && e == ResolveError::InvalidAurUrl,
            },
    {
        let len = url.unicode_len();
        let marker: &str = "aur.archlinux.org/";
        let mlen = marker.unicode_len();
        proof {
            assert(marker@ == host_marker());
        }
        if mlen > len {
            proof {
                assert(extracted_name(url@) is None);
            }
            return Result::Err(ResolveError::InvalidAurUrl);
        }
        let last = len - mlen;
        let mut p: usize = 0;
        loop
            invariant
                len == url@.len(),
                mlen == host_marker().len(),
                marker@ == host_marker(),
                mlen <= len,
                last == len - mlen,
                0 <= p <= last,
                extracted_name(url@) == extract_from(url@, p as int),
            decreases last - p,
        {
            if text::match_at(url, marker, p) {
                let cap = capture_segment(url, p + mlen);
                match cap {
                    Option::Some(name) => {
                        return Result::Ok(name);
                    },
                    Option::None => {},
                }
            }
            if p == last {
                proof {
                    assert(extract_from(url@, p + 1) is None);
                }
                return Result::Err(ResolveError::InvalidAurUrl);
            }
            p += 1;
        }
    }
}

} // verus!
