use vstd::prelude::*;
use vstd::string::*;

verus! {

/// A path separator: a slash, or a backslash as on Windows.
pub open spec fn is_sep(c: char) -> bool {
    c == '/' || c == '\\'
}

/// Index of the last `c` in `s` before `end`, or -1.
pub open spec fn last_index(s: Seq<char>, c: char, end: int) -> int
    decreases end,
{
    if end <= 0 {
        -1
    } else if s[end - 1] == c {
        end - 1
    } else {
        last_index(s, c, end - 1)
    }
}

/// Index of the last separator in `s` before `end`, or -1.
pub open spec fn last_sep(s: Seq<char>, end: int) -> int
    decreases end,
{
    if end <= 0 {
        -1
    } else if is_sep(s[end - 1]) {
        end - 1
    } else {
        last_sep(s, end - 1)
    }
}

/// `end` with the separators just before it dropped.
pub open spec fn trim_seps(s: Seq<char>, end: int) -> int
    decreases end,
{
    if end > 0 && is_sep(s[end - 1]) {
        trim_seps(s, end - 1)
    } else {
        end
    }
}

/// End of the file name: trailing separators are not part of it.
pub open spec fn name_end(s: Seq<char>) -> int {
    trim_seps(s, s.len() as int)
}

/// Start of the file name: just after the last separator before its end.
pub open spec fn name_start(s: Seq<char>) -> int {
    last_sep(s, name_end(s)) + 1
}

/// The last dot before the end of the file name.
pub open spec fn ext_dot(s: Seq<char>) -> int {
    last_index(s, '.', name_end(s))
}

/// The file name has an extension: a dot in it with something before it.
pub open spec fn has_ext(s: Seq<char>) -> bool {
    ext_dot(s) > name_start(s)
}

/// Code point of `c` with ASCII letters in lower case.
pub open spec fn ascii_lower(c: char) -> u32 {
    if 'A' <= c && c <= 'Z' {
        ((c as u32) + 32) as u32
    } else {
        c as u32
    }
}

/// Equal when ASCII letters are compared without regard to case.
pub open spec fn eq_ignore_ascii_case(a: Seq<char>, b: Seq<char>) -> bool {
    a.len() == b.len() && forall|i: int| 0 <= i < a.len() ==> ascii_lower(a[i]) == ascii_lower(
        b[i],
    )
}

/// The file name is empty or `..`: there is no name to give an extension.
pub open spec fn no_name(s: Seq<char>) -> bool {
    let n = name_start(s);
    let e = name_end(s);
    n == e || (n + 2 == e && s[n] == '.' && s[n + 1] == '.')
}

/// `path` with the extension of its file name replaced by `ext`, or `ext`
/// added when it has none, trailing separators dropped; unchanged when the
/// file name already has `ext` (in any ASCII case) or there is no file name.
pub open spec fn with_ext(path: Seq<char>, ext: Seq<char>) -> Seq<char> {
    let d = ext_dot(path);
    let e = name_end(path);
    if has_ext(path) && eq_ignore_ascii_case(path.subrange(d + 1, e), ext) {
        path
    } else if no_name(path) {
        path
    } else {
        let stem = if has_ext(path) {
            path.subrange(0, d)
        } else {
            path.subrange(0, e)
        };
        if ext.len() == 0 {
            stem
        } else {
            stem + seq!['.'] + ext
        }
    }
}

proof fn lemma_last_index_range(s: Seq<char>, c: char, end: int)
    requires
        0 <= end <= s.len(),
    ensures
        -1 <= last_index(s, c, end) < end,
        last_index(s, c, end) >= 0 ==> s[last_index(s, c, end)] == c,
    decreases end,
{
    if end > 0 {
        lemma_last_index_range(s, c, end - 1);
    }
}

proof fn lemma_last_sep_range(s: Seq<char>, end: int)
    requires
        0 <= end <= s.len(),
    ensures
        -1 <= last_sep(s, end) < end,
    decreases end,
{
    if end > 0 {
        lemma_last_sep_range(s, end - 1);
    }
}

proof fn lemma_trim_seps_range(s: Seq<char>, end: int)
    requires
        0 <= end <= s.len(),
    ensures
        0 <= trim_seps(s, end) <= end,
    decreases end,
{
    if end > 0 {
        lemma_trim_seps_range(s, end - 1);
    }
}

fn is_separator(c: char) -> (r: bool)
    ensures
        r == is_sep(c),
{
    c == '/' || c == '\\'
}

fn last_index_of(s: &str, c: char, end: usize) -> (r: i64)
    requires
        end <= s@.len() < 0x8000_0000_0000_0000,
    ensures
        r == last_index(s@, c, end as int),
        -1 <= r < end,
        r >= 0 ==> s@[r as int] == c,
{
    proof {
        lemma_last_index_range(s@, c, end as int);
    }
    let mut k: usize = end;
    while k > 0
        invariant
            k <= end <= s@.len() < 0x8000_0000_0000_0000,
            last_index(s@, c, end as int) == last_index(s@, c, k as int),
        decreases k,
    {
        if s.get_char(k - 1) == c {
            return (k - 1) as i64;
        }
        k -= 1;
    }
    -1
}

fn last_sep_of(s: &str, end: usize) -> (r: i64)
    requires
        end <= s@.len() < 0x8000_0000_0000_0000,
    ensures
        r == last_sep(s@, end as int),
        -1 <= r < end,
{
    proof {
        lemma_last_sep_range(s@, end as int);
    }
    let mut k: usize = end;
    while k > 0
        invariant
            k <= end <= s@.len() < 0x8000_0000_0000_0000,
            last_sep(s@, end as int) == last_sep(s@, k as int),
        decreases k,
    {
        if is_separator(s.get_char(k - 1)) {
            return (k - 1) as i64;
        }
        k -= 1;
    }
    -1
}

fn name_end_of(s: &str) -> (r: usize)
    requires
        s@.len() < 0x8000_0000_0000_0000,
    ensures
        r == name_end(s@),
        r <= s@.len(),
{
    let n = s.unicode_len();
    proof {
        lemma_trim_seps_range(s@, n as int);
    }
    let mut k: usize = n;
    while k > 0 && is_separator(s.get_char(k - 1))
        invariant
            k <= n == s@.len(),
            trim_seps(s@, n as int) == trim_seps(s@, k as int),
        decreases k,
    {
        k -= 1;
    }
    k
}

fn lower(c: char) -> (r: u32)
    ensures
        r == ascii_lower(c),
{
    if 'A' <= c && c <= 'Z' {
        c as u32 + 32
    } else {
        c as u32
    }
}

/// Gives `path` the extension `ext`, keeping it when the path already has
/// it in any ASCII case; used so that a chosen file name ends in the
/// format's extension.
pub fn ensure_extension(path: &str, ext: &str) -> (r: String)
    requires
        path@.len() < 0x8000_0000_0000_0000,
    ensures
        r@ == with_ext(path@, ext@),
{
    let e = name_end_of(path);
    let slash = last_sep_of(path, e);
    let dot = last_index_of(path, '.', e);
    let start = (slash + 1) as usize;
    let with_dot = dot > slash + 1;
    if with_dot {
        let d = dot as usize;
        let m = ext.unicode_len();
        if e - d - 1 == m {
            let mut i: usize = 0;
            let mut same = true;
            while i < m
                invariant
                    i <= m,
                    m == ext@.len(),
                    e <= path@.len(),
                    d + 1 + m == e,
                    same == forall|j: int|
                        0 <= j < i ==> ascii_lower(path@[d + 1 + j]) == ascii_lower(ext@[j]),
                decreases m - i,
            {
                let a = lower(path.get_char(d + 1 + i));
                let b = lower(ext.get_char(i));
                if a != b {
                    same = false;
                }
                i += 1;
            }
            assert(path@.subrange(d + 1, e as int).len() == m);
            assert(forall|j: int|
                0 <= j < m ==> #[trigger] path@.subrange(d + 1, e as int)[j] == path@[d + 1 + j]);
            if same {
                return String::from_str(path);
            }
        }
    }
    let empty = start == e;
    let dotdot = e >= 2 && start == e - 2 && path.get_char(start) == '.' && path.get_char(start + 1)
        == '.';
    if empty || dotdot {
        return String::from_str(path);
    }
    let stem_end: usize = if with_dot {
        dot as usize
    } else {
        e
    };
    let mut out = String::from_str(path.substring_char(0, stem_end));
    if ext.unicode_len() > 0 {
        out.append(".");
        out.append(ext);
        proof {
            reveal_strlit(".");
        }
    }
    out
}

} // verus!
