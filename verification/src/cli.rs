//! Decisions of the command-line tool: which platforms it builds for, and the
//! profile and Rust target of a build.

use vstd::prelude::*;

pub mod templates;
use crate::text::{
    chars_of, find_str, first_occurrence, is_first_occurrence, replace_char, replaced, str_eq, str_starts_with, trim_str,
    trimmed,
};

verus! {

/// An error of the command-line tool, with its message.
#[derive(Debug)]
pub struct CliError {
    pub message: String,
}

/// The platforms the tool builds for.
pub open spec fn is_supported_platform(p: Seq<char>) -> bool {
    p == "ios"@ || p == "android"@ || p == "web"@ || p == "macos"@ || p == "windows"@
}

/// Accept a supported platform name; reject any other with a message that
/// lists the supported ones.
pub fn validate_platform(platform: &str) -> (r: Result<(), CliError>)
    ensures
        r is Ok <==> is_supported_platform(platform@),
        r matches Err(e) ==> e.message@ == "Unknown platform '"@ + platform@
            + "'. Supported: ios, android, web, macos, windows"@,
{
    if str_eq(platform, "ios") || str_eq(platform, "android") || str_eq(platform, "web") || str_eq(
        platform,
        "macos",
    ) || str_eq(platform, "windows") {
        Ok(())
    } else {
        let mut message = String::from_str("Unknown platform '");
        message.append(platform);
        message.append("'. Supported: ios, android, web, macos, windows");
        Err(CliError { message })
    }
}

/// The build profile: "release" for a release build, else "debug".
pub fn build_profile(release: bool) -> (r: &'static str)
    ensures
        r@ == if release { "release"@ } else { "debug"@ },
{
    if release {
        "release"
    } else {
        "debug"
    }
}

/// The Rust target triple for a platform ("unknown" for an unsupported one).
pub open spec fn rust_target_spec(platform: Seq<char>, simulator: bool) -> Seq<char> {
    if platform == "ios"@ {
        if simulator {
            "aarch64-apple-ios-sim"@
        } else {
            "aarch64-apple-ios"@
        }
    } else if platform == "android"@ {
        "aarch64-linux-android"@
    } else if platform == "web"@ {
        "wasm32-unknown-unknown"@
    } else if platform == "macos"@ {
        "aarch64-apple-darwin"@
    } else if platform == "windows"@ {
        "x86_64-pc-windows-msvc"@
    } else {
        "unknown"@
    }
}

/// The Rust target triple to build for `platform` (the simulator target for
/// an iOS simulator build).
pub fn rust_target(platform: &str, simulator: bool) -> (r: &'static str)
    ensures
        r@ == rust_target_spec(platform@, simulator),
{
    if str_eq(platform, "ios") {
        if simulator {
            "aarch64-apple-ios-sim"
        } else {
            "aarch64-apple-ios"
        }
    } else if str_eq(platform, "android") {
        "aarch64-linux-android"
    } else if str_eq(platform, "web") {
        "wasm32-unknown-unknown"
    } else if str_eq(platform, "macos") {
        "aarch64-apple-darwin"
    } else if str_eq(platform, "windows") {
        "x86_64-pc-windows-msvc"
    } else {
        "unknown"
    }
}

/// Every platform the tool accepts has a known Rust target.
pub proof fn lemma_supported_platforms_have_targets(platform: Seq<char>, simulator: bool)
    requires
        is_supported_platform(platform),
    ensures
        rust_target_spec(platform, simulator) != "unknown"@,
{
    reveal_strlit("unknown");
    reveal_strlit("aarch64-apple-ios-sim");
    reveal_strlit("aarch64-apple-ios");
    reveal_strlit("aarch64-linux-android");
    reveal_strlit("wasm32-unknown-unknown");
    reveal_strlit("aarch64-apple-darwin");
    reveal_strlit("x86_64-pc-windows-msvc");
    assert("unknown"@.len() == 7);
}

/// The text that introduces the app's title in its starter component.
pub const TITLE_MARK: &'static str = "Welcome to ";

/// A character that ends the title: the end of the line, a tag or a quote.
pub open spec fn is_title_stop(c: char) -> bool {
    c == '\n' || c == '<' || c == '"'
}

/// `i` is where the first title stop of `s` stands.
pub open spec fn is_first_stop(s: Seq<char>, i: int) -> bool {
    0 <= i < s.len() && is_title_stop(s[i]) && forall|j: int| 0 <= j < i ==> !is_title_stop(#[trigger] s[j])
}

/// Where the first title stop of `s` stands, if anywhere.
pub open spec fn first_stop(s: Seq<char>) -> Option<int> {
    if exists|i: int| #[trigger] is_first_stop(s, i) {
        Some(choose|i: int| #[trigger] is_first_stop(s, i))
    } else {
        None
    }
}

/// The window title that an app's source names: what follows the first
/// "Welcome to " up to the first title stop, trimmed; none when either is
/// missing.
pub open spec fn title_in(src: Seq<char>) -> Option<Seq<char>> {
    match first_occurrence(src, TITLE_MARK@) {
        None => None,
        Some(p) => {
            let rest = src.subrange(p + TITLE_MARK@.len(), src.len() as int);
            match first_stop(rest) {
                None => None,
                Some(e) => Some(trimmed(rest.subrange(0, e))),
            }
        },
    }
}

fn find_stop(s: &str) -> (r: Option<usize>)
    ensures
        match r {
            Some(i) => first_stop(s@) == Some(i as int),
            None => first_stop(s@) is None,
        },
{
    let n = s.unicode_len();
    let mut i: usize = 0;
    while i < n
        invariant
            n == s@.len(),
            i <= n,
            forall|j: int| 0 <= j < i ==> !is_title_stop(#[trigger] s@[j]),
        decreases n - i,
    {
        let c = s.get_char(i);
        if c == '\n' || c == '<' || c == '"' {
            assert(is_first_stop(s@, i as int));
            let ghost w = choose|k: int| #[trigger] is_first_stop(s@, k);
            assert(w == i) by {
                if w < i {
                    assert(!is_title_stop(s@[w]));
                } else if w > i {
                    assert(!is_title_stop(s@[i as int]));
                }
            }
            return Some(i);
        }
        i = i + 1;
    }
    assert forall|k: int| !#[trigger] is_first_stop(s@, k) by {}
    None
}

/// The window title that an app's source names (see `title_in`).
pub fn title_in_source(src: &str) -> (r: Option<String>)
    ensures
        match r {
            Some(t) => title_in(src@) == Some(t@),
            None => title_in(src@) is None,
        },
{
    match find_str(src, TITLE_MARK) {
        None => None,
        Some(p) => {
            assert(is_first_occurrence(src@, TITLE_MARK@, p as int));
            let n = src.unicode_len();
            let start = p + TITLE_MARK.unicode_len();
            let rest = src.substring_char(start, n);
            match find_stop(rest) {
                None => None,
                Some(e) => {
                    let t = trim_str(rest.substring_char(0, e));
                    Some(String::from_str(t))
                },
            }
        },
    }
}

/// Where the line of `s` that begins at `start` ends: at the next line feed,
/// or at the end of `s`.
pub open spec fn line_end(s: Seq<char>, start: int) -> int
    decreases s.len() - start,
{
    if start >= s.len() || s[start] == '\n' {
        start
    } else {
        line_end(s, start + 1)
    }
}

/// The line of `s` that begins at `start`, without its line feed and without
/// a carriage return just before that line feed.
pub open spec fn line_at(s: Seq<char>, start: int) -> Seq<char> {
    let e = line_end(s, start);
    let l = s.subrange(start, e);
    if e < s.len() && l.len() > 0 && l.last() == '\r' {
        l.drop_last()
    } else {
        l
    }
}

/// What follows the first double quote of `l`, up to the next one (or the
/// end); none when `l` holds no double quote.
pub open spec fn quoted_field(l: Seq<char>) -> Option<Seq<char>> {
    if exists|i: int| 0 <= i < l.len() && l[i] == '"' {
        let q = choose|i: int| 0 <= i < l.len() && l[i] == '"' && forall|j: int| 0 <= j < i ==> l[j] != '"';
        let rest = l.subrange(q + 1, l.len() as int);
        let e = if exists|i: int| 0 <= i < rest.len() && rest[i] == '"' {
            choose|i: int| 0 <= i < rest.len() && rest[i] == '"' && forall|j: int| 0 <= j < i ==> rest[j] != '"'
        } else {
            rest.len() as int
        };
        Some(rest.subrange(0, e))
    } else {
        None
    }
}

/// The value of the first line, from `start` on, that begins with "name":
/// its quoted field; none when there is no such line or it quotes nothing.
pub open spec fn name_value(s: Seq<char>, start: int) -> Option<Seq<char>>
    decreases s.len() + 1 - start,
{
    if start < 0 || start >= s.len() {
        None
    } else if "name"@.is_prefix_of(line_at(s, start)) {
        quoted_field(line_at(s, start))
    } else {
        proof {
            lemma_line_end_bounds(s, start);
        }
        name_value(s, line_end(s, start) + 1)
    }
}

/// The name of the library built from a crate manifest: the quoted value of
/// its first line that begins with "name" ("native" when there is none),
/// with dashes turned into underscores.
pub open spec fn crate_lib_name(manifest: Seq<char>) -> Seq<char> {
    replaced(
        match name_value(manifest, 0) {
            Some(v) => v,
            None => "native"@,
        },
        '-',
        '_',
    )
}

/// A line ends at the next line feed, or at the end.
pub proof fn lemma_line_end_bounds(s: Seq<char>, start: int)
    requires
        0 <= start <= s.len(),
    ensures
        start <= line_end(s, start) <= s.len(),
        forall|j: int| start <= j < line_end(s, start) ==> s[j] != '\n',
        line_end(s, start) < s.len() ==> s[line_end(s, start)] == '\n',
    decreases s.len() - start,
{
    if start < s.len() && s[start] != '\n' {
        lemma_line_end_bounds(s, start + 1);
    }
}

fn find_line_end(v: &Vec<char>, start: usize) -> (e: usize)
    requires
        start <= v@.len(),
    ensures
        e == line_end(v@, start as int),
{
    let mut i = start;
    while i < v.len() && v[i] != '\n'
        invariant
            start <= i <= v@.len(),
            line_end(v@, i as int) == line_end(v@, start as int),
        decreases v@.len() - i,
    {
        i = i + 1;
    }
    i
}

fn first_quote(v: &Vec<char>, from: usize, to: usize) -> (r: Option<usize>)
    requires
        from <= to <= v@.len(),
    ensures
        match r {
            Some(i) => from <= i < to && v@[i as int] == '"' && forall|j: int| from <= j < i ==> v@[j] != '"',
            None => forall|j: int| from <= j < to ==> v@[j] != '"',
        },
{
    let mut i = from;
    while i < to
        invariant
            from <= i <= to,
            to <= v@.len(),
            forall|j: int| from <= j < i ==> v@[j] != '"',
        decreases to - i,
    {
        if v[i] == '"' {
            return Some(i);
        }
        i = i + 1;
    }
    None
}

/// The quoted field of the characters of `manifest` from `start` to `stop`.
fn quoted_field_in(manifest: &str, v: &Vec<char>, start: usize, stop: usize) -> (r: Option<String>)
    requires
        v@ == manifest@,
        start <= stop <= v@.len(),
    ensures
        match r {
            Some(f) => quoted_field(v@.subrange(start as int, stop as int)) == Some(f@),
            None => quoted_field(v@.subrange(start as int, stop as int)) is None,
        },
{
    let ghost l = v@.subrange(start as int, stop as int);
    match first_quote(v, start, stop) {
        None => {
            assert(quoted_field(l) is None) by {
                if exists|i: int| 0 <= i < l.len() && l[i] == '"' {
                    let i = choose|i: int| 0 <= i < l.len() && l[i] == '"';
                    assert(v@[start + i] == '"');
                }
            }
            None
        },
        Some(q) => {
            let ghost lq = (q - start) as int;
            assert(0 <= lq < l.len() && l[lq] == '"');
            assert forall|j: int| 0 <= j < lq implies l[j] != '"' by {
                assert(l[j] == v@[start + j]);
            }
            let ghost c = choose|i: int| 0 <= i < l.len() && l[i] == '"' && forall|j: int| 0 <= j < i ==> l[j] != '"';
            assert(c == lq) by {
                if c < lq {
                    assert(l[c] != '"');
                } else if c > lq {
                    assert(l[lq] != '"');
                }
            }
            let ghost rest = l.subrange(lq + 1, l.len() as int);
            let end = match first_quote(v, q + 1, stop) {
                Some(q2) => {
                    let ghost rq = (q2 - q - 1) as int;
                    assert(0 <= rq < rest.len() && rest[rq] == '"');
                    assert forall|j: int| 0 <= j < rq implies rest[j] != '"' by {
                        assert(rest[j] == v@[q + 1 + j]);
                    }
                    let ghost c2 = choose|i: int| 0 <= i < rest.len() && rest[i] == '"' && forall|j: int| 0 <= j < i ==> rest[j] != '"';
                    assert(c2 == rq) by {
                        if c2 < rq {
                            assert(rest[c2] != '"');
                        } else if c2 > rq {
                            assert(rest[rq] != '"');
                        }
                    }
                    q2
                },
                None => {
                    assert(!exists|i: int| 0 <= i < rest.len() && rest[i] == '"') by {
                        if exists|i: int| 0 <= i < rest.len() && rest[i] == '"' {
                            let i = choose|i: int| 0 <= i < rest.len() && rest[i] == '"';
                            assert(rest[i] == v@[q + 1 + i]);
                        }
                    }
                    stop
                },
            };
            let field = manifest.substring_char(q + 1, end);
            assert(field@ =~= rest.subrange(0, (end - q - 1) as int));
            Some(String::from_str(field))
        },
    }
}

/// The library name for the value of the manifest's name line, or for none.
fn lib_name_of(value: Option<String>) -> (r: String)
    ensures
        r@ == replaced(
            match value {
                Some(v) => v@,
                None => "native"@,
            },
            '-',
            '_',
        ),
{
    proof {
        reveal_strlit("_");
    }
    let chosen = match value {
        Some(v) => v,
        None => String::from_str("native"),
    };
    replace_char(chosen.as_str(), '-', "_")
}

/// The name of the library built from the crate manifest `manifest` (see
/// `crate_lib_name`).
pub fn native_crate_name(manifest: &str) -> (r: String)
    ensures
        r@ == crate_lib_name(manifest@),
{
    let v = chars_of(manifest);
    let n = v.len();
    let mut start: usize = 0;
    while start < n
        invariant
            v@ == manifest@,
            n == v@.len(),
            start <= n,
            name_value(v@, start as int) == name_value(v@, 0),
        decreases n - start,
    {
        proof {
            lemma_line_end_bounds(v@, start as int);
        }
        let e = find_line_end(&v, start);
        let mut stop = e;
        if e < n && e > start && v[e - 1] == '\r' {
            stop = e - 1;
        }
        let ghost l = line_at(v@, start as int);
        assert(v@.subrange(start as int, stop as int) == l) by {
            let whole = v@.subrange(start as int, e as int);
            if e < n && e > start && v@[e - 1] == '\r' {
                assert(whole.drop_last() =~= v@.subrange(start as int, stop as int));
            } else {
                assert(whole =~= v@.subrange(start as int, stop as int));
            }
        }
        let line = manifest.substring_char(start, stop);
        if str_starts_with(line, "name") {
            let value = quoted_field_in(manifest, &v, start, stop);
            return lib_name_of(value);
        }
        start = if e < n { e + 1 } else { n };
    }
    lib_name_of(None)
}

} // verus!
