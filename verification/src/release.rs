use vstd::prelude::*;

use crate::error::Error;
use crate::text::is_prefix;
use crate::text::rfind_char;
use crate::text::str_starts_with;
use crate::version::spec_version_str;
use crate::version::Version;

verus! {

/// The archive name suffix for a compiled target triple, from the fixed
/// table of supported platforms.  A triple outside the table has no
/// archive.
pub open spec fn spec_target_suffix(triple: Seq<char>) -> Option<Seq<char>> {
    if is_prefix(triple, "x86_64-unknown-linux"@) {
        Some("x86_64-linux.zip"@)
    } else if is_prefix(triple, "aarch64-unknown-linux"@) {
        Some("aarch64-linux.zip"@)
    } else if is_prefix(triple, "x86_64-pc-windows"@) {
        Some("x86_64-windows.zip"@)
    } else if is_prefix(triple, "aarch64-pc-windows"@) {
        Some("aarch64-windows.zip"@)
    } else if is_prefix(triple, "x86_64-apple"@) {
        Some("x86_64-mac.zip"@)
    } else if is_prefix(triple, "aarch64-apple"@) {
        Some("aarch64-mac.zip"@)
    } else {
        None
    }
}

/// The archive name suffix for the running target, or `None` when the
/// target has no archive in the table.
pub fn target_suffix(triple: &str) -> (r: Option<&'static str>)
    ensures
        match r {
            Some(s) => spec_target_suffix(triple@) == Some(s@),
            None => spec_target_suffix(triple@) is None,
        },
{
    if str_starts_with(triple, "x86_64-unknown-linux") {
        Some("x86_64-linux.zip")
    } else if str_starts_with(triple, "aarch64-unknown-linux") {
        Some("aarch64-linux.zip")
    } else if str_starts_with(triple, "x86_64-pc-windows") {
        Some("x86_64-windows.zip")
    } else if str_starts_with(triple, "aarch64-pc-windows") {
        Some("aarch64-windows.zip")
    } else if str_starts_with(triple, "x86_64-apple") {
        Some("x86_64-mac.zip")
    } else if str_starts_with(triple, "aarch64-apple") {
        Some("aarch64-mac.zip")
    } else {
        None
    }
}

/// The download URL of one released archive of `project`, built from the
/// release version and the target platform suffix.
pub open spec fn spec_archive_url(project: Seq<char>, v: Version, suffix: Seq<char>) -> Seq<char> {
    "https://github.com/veryl-lang/"@ + project + "/releases/download/v"@ + spec_version_str(v)
        + "/"@ + project + "-"@ + suffix
}

/// Construct the release archive URL for `project` at `version` on the
/// running target; fails exactly when the target is not in the platform
/// table.
pub fn get_archive_url(project: &str, version: &Version, triple: &str) -> (r: Result<String, Error>)
    ensures
        match spec_target_suffix(triple@) {
            Some(sfx) => r matches Ok(u) && u@ == spec_archive_url(project@, *version, sfx),
            None => r == Err::<String, Error>(Error::UnsupportedPlatform),
        },
{
    let sfx = match target_suffix(triple) {
        Some(sfx) => sfx,
        None => {
            return Err(Error::UnsupportedPlatform);
        },
    };
    let mut out = String::new();
    out.append("https://github.com/veryl-lang/");
    out.append(project);
    out.append("/releases/download/v");
    let vtext = version.to_text();
    out.append(vtext.as_str());
    out.append("/");
    out.append(project);
    out.append("-");
    out.append(sfx);
    proof {
        assert(out@ =~= spec_archive_url(project@, *version, sfx@));
    }
    Ok(out)
}

/// The fixed URL of the nightly archive for the running target; fails
/// exactly when the target is not in the platform table.
pub fn get_nightly_url(triple: &str) -> (r: Result<String, Error>)
    ensures
        match spec_target_suffix(triple@) {
            Some(sfx) => r matches Ok(u) && u@ == "https://static.veryl-lang.org/toolchain/nightly/veryl-"@
                + sfx,
            None => r == Err::<String, Error>(Error::UnsupportedPlatform),
        },
{
    let sfx = match target_suffix(triple) {
        Some(sfx) => sfx,
        None => {
            return Err(Error::UnsupportedPlatform);
        },
    };
    let mut out = String::new();
    out.append("https://static.veryl-lang.org/toolchain/nightly/veryl-");
    out.append(sfx);
    proof {
        assert(out@ =~= "https://static.veryl-lang.org/toolchain/nightly/veryl-"@ + sfx@);
    }
    Ok(out)
}

/// The fixed URL of the nightly version marker.
pub fn get_nightly_version_url() -> (r: String)
    ensures
        r@ == "https://static.veryl-lang.org/toolchain/nightly/version"@,
{
    "https://static.veryl-lang.org/toolchain/nightly/version".to_owned()
}

/// The characters after the last `/` of a path (the whole path when it has
/// none).
pub open spec fn spec_last_segment(s: Seq<char>) -> Seq<char>
    decreases s.len(),
{
    if s.len() == 0 {
        s
    } else if s.last() == '/' {
        Seq::empty()
    } else {
        spec_last_segment(s.drop_last()).push(s.last())
    }
}

/// When `i` is the last slash, the last segment is what follows it.
proof fn lemma_last_segment_at(s: Seq<char>, i: int)
    requires
        0 <= i < s.len(),
        s[i] == '/',
        forall|j: int| i < j < s.len() ==> s[j] != '/',
    ensures
        spec_last_segment(s) == s.subrange(i + 1, s.len() as int),
    decreases s.len(),
{
    if i == s.len() - 1 {
        assert(s.subrange(i + 1, s.len() as int) =~= Seq::<char>::empty());
    } else {
        let p = s.drop_last();
        assert(p[i] == s[i]);
        assert(forall|j: int| i < j < p.len() ==> p[j] == #[trigger] s[j]);
        lemma_last_segment_at(p, i);
        assert(s.last() != '/');
        assert(p.subrange(i + 1, p.len() as int).push(s.last()) =~= s.subrange(
            i + 1,
            s.len() as int,
        ));
    }
}

/// With no slash at all, the last segment is the whole path.
proof fn lemma_last_segment_whole(s: Seq<char>)
    requires
        forall|j: int| 0 <= j < s.len() ==> s[j] != '/',
    ensures
        spec_last_segment(s) == s,
    decreases s.len(),
{
    if s.len() > 0 {
        let p = s.drop_last();
        assert(forall|j: int| 0 <= j < p.len() ==> p[j] == #[trigger] s[j]);
        lemma_last_segment_whole(p);
        assert(p.push(s.last()) =~= s);
    }
}

/// Read a release version out of a redirect target's path: the last path
/// segment, with its leading `v` stripped, as a version text.
///
/// Succeeds exactly when that segment is `v` followed by a canonical
/// version text; everything else is a parse failure.
pub fn version_from_release_path(path: &str) -> (r: Result<Version, Error>)
    ensures
        ({
            let seg = spec_last_segment(path@);
            &&& r matches Ok(v) ==> seg.len() > 0 && seg[0] == 'v' && spec_version_str(v)
                == seg.subrange(1, seg.len() as int)
            &&& forall|v: Version|
                seg.len() > 0 && seg[0] == 'v' && spec_version_str(v) == seg.subrange(
                    1,
                    seg.len() as int,
                ) ==> r == Ok::<Version, Error>(v)
            &&& r is Err ==> r == Err::<Version, Error>(Error::ParseError)
        }),
{
    let len = path.unicode_len();
    let start = match rfind_char(path, '/') {
        Some(i) => {
            proof {
                lemma_last_segment_at(path@, i as int);
            }
            i + 1
        },
        None => {
            proof {
                lemma_last_segment_whole(path@);
            }
            0
        },
    };
    let ghost seg = spec_last_segment(path@);
    proof {
        assert(seg =~= path@.subrange(start as int, len as int));
    }
    if start == len {
        return Err(Error::ParseError);
    }
    if path.get_char(start) != 'v' {
        proof {
            assert(seg[0] == path@[start as int]);
        }
        return Err(Error::ParseError);
    }
    let rest = path.substring_char(start + 1, len);
    proof {
        assert(rest@ =~= seg.subrange(1, seg.len() as int));
    }
    match Version::parse(rest) {
        Ok(v) => Ok(v),
        Err(_) => Err(Error::ParseError),
    }
}

} // verus!
