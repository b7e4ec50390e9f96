//! The checks on a file path that go by its text alone: which directory
//! names and which file extensions the host refuses to touch.
use vstd::prelude::*;
use crate::insns::str_eq;
use crate::lexer::{str_chars, string_from_chars};
use crate::methods::{is_ws_scalar, spec_to_lowercase, str_to_lowercase};

verus! {

/// White space, as `char::is_whitespace` has it
pub open spec fn is_ws_char(c: char) -> bool {
    is_ws_scalar(c as u32)
}

/// Index of the first character at or after `i` that is not white space
pub open spec fn first_kept(s: Seq<char>, i: int) -> int
    decreases s.len() - i,
{
    if 0 <= i < s.len() && is_ws_char(s[i]) { first_kept(s, i + 1) } else { i }
}

/// End of the characters up to `j` once the white space before it, down
/// to `lo`, is dropped
pub open spec fn last_kept(s: Seq<char>, j: int, lo: int) -> int
    decreases j - lo,
{
    if lo < j <= s.len() && is_ws_char(s[j - 1]) { last_kept(s, j - 1, lo) } else { j }
}

/// A text without the white space at either end
pub open spec fn trim_chars(s: Seq<char>) -> Seq<char> {
    let a = first_kept(s, 0);
    s.subrange(a, last_kept(s, s.len() as int, a))
}

/// The parts of a path between its slashes, the empty ones included
pub open spec fn segments(s: Seq<char>) -> Seq<Seq<char>>
    decreases s.len(),
{
    if s.len() == 0 {
        seq![Seq::empty()]
    } else {
        let rest = segments(s.drop_last());
        if s.last() == '/' {
            rest.push(Seq::empty())
        } else {
            rest.update(rest.len() - 1, rest.last().push(s.last()))
        }
    }
}

/// Whether a part of a path names a file or directory: not empty, not
/// the current directory and not the parent directory
pub open spec fn is_normal(seg: Seq<char>) -> bool {
    seg.len() > 0 && seg != seq!['.'] && seg != seq!['.', '.']
}

/// The last part of a list that is neither empty nor the current
/// directory
pub open spec fn last_name(ss: Seq<Seq<char>>) -> Option<Seq<char>>
    decreases ss.len(),
{
    if ss.len() == 0 {
        None
    } else if ss.last().len() > 0 && ss.last() != seq!['.'] {
        Some(ss.last())
    } else {
        last_name(ss.drop_last())
    }
}

/// Index of the last dot among the first `j` characters, or -1
pub open spec fn last_dot(n: Seq<char>, j: int) -> int
    decreases j,
{
    if j <= 0 { -1 } else if n[j - 1] == '.' { j - 1 } else { last_dot(n, j - 1) }
}

/// The extension of a path: what follows the last dot of its file name,
/// where that dot is not the name's first character. None where the path
/// has no file name or ends in the parent directory
pub open spec fn extension(s: Seq<char>) -> Option<Seq<char>> {
    match last_name(segments(s)) {
        Some(n) => if n == seq!['.', '.'] {
            None
        } else {
            let k = last_dot(n, n.len() as int);
            if k > 0 { Some(n.subrange(k + 1, n.len() as int)) } else { None }
        },
        None => None,
    }
}

/// Directory and file names a path may not contain, in lower case
pub open spec fn blocked_name(n: Seq<char>) -> bool {
    n == "src"@ || n == ".cargo"@ || n == "cargo.toml"@ || n == "cargo.lock"@ || n == ".git"@ || n == ".github"@
}

/// Extensions of executables, libraries and scripts, in lower case
pub open spec fn blocked_ext(e: Seq<char>) -> bool {
    ||| e == "exe"@ || e == "com"@ || e == "scr"@ || e == "msi"@ || e == "cpl"@ || e == "dll"@
    ||| e == "bat"@ || e == "cmd"@ || e == "ps1"@ || e == "psm1"@ || e == "vbs"@ || e == "vbe"@
    ||| e == "js"@ || e == "jse"@ || e == "wsf"@ || e == "wsh"@ || e == "hta"@ || e == "jar"@
    ||| e == "sh"@ || e == "bash"@ || e == "zsh"@ || e == "csh"@ || e == "ksh"@ || e == "fish"@
    ||| e == "command"@ || e == "so"@ || e == "dylib"@ || e == "app"@ || e == "out"@
    ||| e == "py"@ || e == "pyc"@ || e == "pyo"@ || e == "rb"@ || e == "pl"@ || e == "php"@ || e == "lua"@
}

/// Whether a path passes the checks that go by its text: once trimmed, no
/// part of it names a refused directory or file, in any case, and its
/// extension, in any case, is not that of an executable or script
pub open spec fn path_text_is_safe(p: Seq<char>) -> bool {
    let t = trim_chars(p);
    &&& forall|i: int| 0 <= i < segments(t).len() && is_normal(#[trigger] segments(t)[i])
        ==> !blocked_name(spec_to_lowercase(segments(t)[i]))
    &&& !(extension(t) matches Some(e) && blocked_ext(spec_to_lowercase(e)))
}

proof fn lemma_segments_prefix(s: Seq<char>, i: int, j: int)
    requires
        0 <= i <= j <= s.len(),
    ensures
        segments(s.take(i)).len() >= 1,
        segments(s.take(j)).len() >= segments(s.take(i)).len(),
        forall|k: int| 0 <= k < segments(s.take(i)).len() - 1
            ==> #[trigger] segments(s.take(j))[k] == segments(s.take(i))[k],
    decreases j - i, s.len() - i,
{
    lemma_segments_nonempty(s.take(i));
    if j > i {
        lemma_segments_prefix(s, i, j - 1);
        assert(s.take(j).drop_last() =~= s.take(j - 1));
        lemma_segments_nonempty(s.take(j - 1));
    }
}

proof fn lemma_segments_nonempty(s: Seq<char>)
    ensures
        segments(s).len() >= 1,
    decreases s.len(),
{
    if s.len() > 0 {
        lemma_segments_nonempty(s.drop_last());
    }
}

fn is_blocked_name(n: &str) -> (r: bool)
    ensures
        r == blocked_name(n@),
{
    str_eq(n, "src") || str_eq(n, ".cargo") || str_eq(n, "cargo.toml") || str_eq(n, "cargo.lock")
        || str_eq(n, ".git") || str_eq(n, ".github")
}

fn is_blocked_ext(e: &str) -> (r: bool)
    ensures
        r == blocked_ext(e@),
{
    str_eq(e, "exe") || str_eq(e, "com") || str_eq(e, "scr") || str_eq(e, "msi") || str_eq(e, "cpl")
        || str_eq(e, "dll") || str_eq(e, "bat") || str_eq(e, "cmd") || str_eq(e, "ps1") || str_eq(e, "psm1")
        || str_eq(e, "vbs") || str_eq(e, "vbe") || str_eq(e, "js") || str_eq(e, "jse") || str_eq(e, "wsf")
        || str_eq(e, "wsh") || str_eq(e, "hta") || str_eq(e, "jar") || str_eq(e, "sh") || str_eq(e, "bash")
        || str_eq(e, "zsh") || str_eq(e, "csh") || str_eq(e, "ksh") || str_eq(e, "fish")
        || str_eq(e, "command") || str_eq(e, "so") || str_eq(e, "dylib") || str_eq(e, "app")
        || str_eq(e, "out") || str_eq(e, "py") || str_eq(e, "pyc") || str_eq(e, "pyo") || str_eq(e, "rb")
        || str_eq(e, "pl") || str_eq(e, "php") || str_eq(e, "lua")
}

/// A text without the white space at either end
fn trim_text(s: &Vec<char>) -> (r: Vec<char>)
    ensures
        r@ == trim_chars(s@),
{
    let n = s.len();
    let mut a: usize = 0;
    while a < n && is_ws_char_exec(s[a])
        invariant
            a <= n,
            n == s@.len(),
            first_kept(s@, 0) == first_kept(s@, a as int),
        decreases n - a,
    {
        a = a + 1;
    }
    let mut b: usize = n;
    while b > a && is_ws_char_exec(s[b - 1])
        invariant
            a <= b <= n,
            n == s@.len(),
            last_kept(s@, n as int, a as int) == last_kept(s@, b as int, a as int),
        decreases b,
    {
        b = b - 1;
    }
    let mut out: Vec<char> = Vec::new();
    let mut k: usize = a;
    while k < b
        invariant
            a <= k <= b <= n,
            n == s@.len(),
            out@ == s@.subrange(a as int, k as int),
        decreases b - k,
    {
        out.push(s[k]);
        k = k + 1;
        assert(out@ =~= s@.subrange(a as int, k as int));
    }
    assert(out@ =~= s@.subrange(a as int, b as int));
    out
}

fn is_ws_char_exec(c: char) -> (r: bool)
    ensures
        r == is_ws_char(c),
{
    let x = c as u32;
    (0x09 <= x && x <= 0x0D) || x == 0x20 || x == 0x85 || x == 0xA0 || x == 0x1680
        || (0x2000 <= x && x <= 0x200A) || x == 0x2028 || x == 0x2029 || x == 0x202F || x == 0x205F
        || x == 0x3000
}

/// Whether a part of a path, lowered, names a refused directory or file
fn name_refused(seg: &Vec<char>) -> (r: bool)
    ensures
        r == (is_normal(seg@) && blocked_name(spec_to_lowercase(seg@))),
{
    let n = seg.len();
    if n == 0 || (n == 1 && seg[0] == '.') || (n == 2 && seg[0] == '.' && seg[1] == '.') {
        proof {
            if n == 1 && seg[0] == '.' { assert(seg@ =~= seq!['.']); }
            if n == 2 && seg[0] == '.' && seg[1] == '.' { assert(seg@ =~= seq!['.', '.']); }
        }
        return false;
    }
    proof {
        assert(seg@ != seq!['.']) by { if seg@ == seq!['.'] { assert(seg@[0] == '.'); } }
        assert(seg@ != seq!['.', '.']) by { if seg@ == seq!['.', '.'] { assert(seg@[0] == '.' && seg@[1] == '.'); } }
    }
    let text = string_from_chars(seg.as_slice());
    let lower = str_to_lowercase(text.as_str());
    is_blocked_name(lower.as_str())
}

/// Whether a path passes the checks that go by its text: once trimmed, no
/// part of it names a refused directory or file, in any case, and its
/// extension is not that of an executable or script
pub fn path_text_safe(path: &str) -> (r: bool)
    ensures
        r == path_text_is_safe(path@),
{
    let all = str_chars(path);
    let t = trim_text(&all);
    let ghost ts = t@;
    let n = t.len();
    let mut cur: Vec<char> = Vec::new();
    let mut last: Option<Vec<char>> = None;
    let mut i: usize = 0;
    proof { assert(ts.take(0) =~= Seq::<char>::empty()); }
    while i < n
        invariant
            i <= n,
            n == ts.len(),
            ts == t@,
            ts == trim_chars(path@),
            segments(ts.take(i as int)).len() >= 1,
            segments(ts.take(i as int)).last() == cur@,
            forall|k: int| 0 <= k < segments(ts.take(i as int)).len() - 1 && is_normal(#[trigger] segments(ts.take(i as int))[k])
                ==> !blocked_name(spec_to_lowercase(segments(ts.take(i as int))[k])),
            match last {
                Some(v) => last_name(segments(ts.take(i as int)).drop_last()) == Some(v@),
                None => last_name(segments(ts.take(i as int)).drop_last()) is None,
            },
        decreases n - i,
    {
        let c = t[i];
        let ghost before = segments(ts.take(i as int));
        proof { assert(ts.take(i as int + 1).drop_last() =~= ts.take(i as int)); }
        if c == '/' {
            if name_refused(&cur) {
                proof {
                    lemma_segments_nonempty(ts.take(i as int));
                    assert(segments(ts.take(i as int + 1)) == before.push(Seq::empty()));
                    assert(segments(ts.take(i as int + 1))[before.len() - 1] == cur@);
                    lemma_segments_prefix(ts, i as int + 1, n as int);
                    assert(ts.take(n as int) =~= ts);
                    assert(segments(ts)[before.len() - 1] == cur@);
                }
                return false;
            }
            if cur.len() > 0 && !(cur.len() == 1 && cur[0] == '.') {
                proof { if cur@ == seq!['.'] { assert(cur@[0] == '.'); } }
                last = Some(cur);
            } else {
                proof { if cur.len() == 1 && cur[0] == '.' { assert(cur@ =~= seq!['.']); } }
            }
            cur = Vec::new();
            proof {
                let after = segments(ts.take(i as int + 1));
                assert(after == before.push(Seq::empty()));
                assert(after.drop_last() =~= before);
            }
        } else {
            cur.push(c);
            proof {
                let after = segments(ts.take(i as int + 1));
                assert(after == before.update(before.len() - 1, before.last().push(c)));
                assert(after.drop_last() =~= before.drop_last());
                assert forall|k: int| 0 <= k < after.len() - 1 implies #[trigger] after[k] == before[k] by {}
            }
        }
        i = i + 1;
    }
    proof { assert(ts.take(n as int) =~= ts); }
    let ghost segs = segments(ts);
    if name_refused(&cur) {
        proof { assert(segs[segs.len() - 1] == cur@); }
        return false;
    }
    proof {
        assert forall|k: int| 0 <= k < segs.len() && is_normal(#[trigger] segs[k])
            implies !blocked_name(spec_to_lowercase(segs[k])) by {
            if k == segs.len() - 1 {
            }
        }
    }
    // The file name: the last part that is neither empty nor `.`
    let name: Option<Vec<char>> = if cur.len() > 0 && !(cur.len() == 1 && cur[0] == '.') {
        proof { if cur@ == seq!['.'] { assert(cur@[0] == '.'); } }
        Some(cur)
    } else {
        proof { if cur.len() == 1 && cur[0] == '.' { assert(cur@ =~= seq!['.']); } }
        last
    };
    match name {
        None => true,
        Some(nm) => {
            let m = nm.len();
            if m == 2 && nm[0] == '.' && nm[1] == '.' {
                proof { assert(nm@ =~= seq!['.', '.']); }
                return true;
            }
            proof { if nm@ == seq!['.', '.'] { assert(nm@[0] == '.' && nm@[1] == '.'); } }
            let mut j: usize = m;
            while j > 0 && nm[j - 1] != '.'
                invariant
                    j <= m,
                    m == nm@.len(),
                    last_dot(nm@, m as int) == last_dot(nm@, j as int),
                decreases j,
            {
                j = j - 1;
            }
            // j - 1 is the last dot, if j > 0
            if j <= 1 {
                return true;
            }
            let mut ext: Vec<char> = Vec::new();
            let mut k: usize = j;
            while k < m
                invariant
                    j <= k <= m,
                    m == nm@.len(),
                    ext@ == nm@.subrange(j as int, k as int),
                decreases m - k,
            {
                ext.push(nm[k]);
                k = k + 1;
                assert(ext@ =~= nm@.subrange(j as int, k as int));
            }
            assert(ext@ =~= nm@.subrange(j as int, m as int));
            let text = string_from_chars(ext.as_slice());
            let lower = str_to_lowercase(text.as_str());
            !is_blocked_ext(lower.as_str())
        }
    }
}

} // verus!
