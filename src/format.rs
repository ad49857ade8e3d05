//! Classification of RAW files by the extension of their file name.
use vstd::prelude::*;
use crate::text::{chars_of, lower_of, lowercase, string_of};

verus! {

/// The RAW families that the decode chain tells apart.
#[derive(Clone, Copy, Debug, PartialEq, Eq, Structural)]
pub enum FormatTag {
    /// Fujifilm `.raf`.
    Raf,
    /// Sony `.arw`.
    Arw,
    /// Canon `.cr2` and `.cr3`.
    Canon,
    /// Nikon `.nef`.
    Nef,
    /// Any other extension, or none.
    Generic,
}

/// ASCII case folding of one character; other characters are kept. Paths
/// that agree under it differ only in the case of ASCII letters.
pub open spec fn lower_char(c: char) -> char {
    if 'A' <= c && c <= 'Z' {
        ((c as u8) + 32) as char
    } else {
        c
    }
}

/// ASCII case folding of a sequence of characters.
pub open spec fn lower(s: Seq<char>) -> Seq<char> {
    s.map_values(|c: char| lower_char(c))
}

/// The path with trailing separators and trailing `.` components removed.
pub open spec fn trim_tail(p: Seq<char>) -> Seq<char>
    decreases p.len(),
{
    if p.len() == 0 {
        p
    } else if p.last() == '/' {
        trim_tail(p.drop_last())
    } else if p.last() == '.' && (p.len() == 1 || p[p.len() - 2] == '/') {
        trim_tail(p.drop_last())
    } else {
        p
    }
}

/// Index of the last occurrence of `c` in `s`, or -1.
pub open spec fn last_index_of(s: Seq<char>, c: char) -> int
    decreases s.len(),
{
    if s.len() == 0 {
        -1
    } else if s.last() == c {
        s.len() - 1
    } else {
        last_index_of(s.drop_last(), c)
    }
}

/// The last component of a path, if it is a file name (not empty, not `..`).
pub open spec fn file_name_of(p: Seq<char>) -> Option<Seq<char>> {
    let t = trim_tail(p);
    let name = t.subrange(last_index_of(t, '/') + 1, t.len() as int);
    if name.len() == 0 || name == seq!['.', '.'] {
        None
    } else {
        Some(name)
    }
}

/// The extension of a path: what follows the last `.` of its file name,
/// where that `.` is not the name's first character.
pub open spec fn extension_of(p: Seq<char>) -> Option<Seq<char>> {
    match file_name_of(p) {
        None => None,
        Some(name) => {
            let k = last_index_of(name, '.');
            if k <= 0 {
                None
            } else {
                Some(name.subrange(k + 1, name.len() as int))
            }
        },
    }
}

/// The family of a lower-case extension.
pub open spec fn tag_of_extension(e: Seq<char>) -> FormatTag {
    if e == seq!['r', 'a', 'f'] {
        FormatTag::Raf
    } else if e == seq!['a', 'r', 'w'] {
        FormatTag::Arw
    } else if e == seq!['c', 'r', '2'] || e == seq!['c', 'r', '3'] {
        FormatTag::Canon
    } else if e == seq!['n', 'e', 'f'] {
        FormatTag::Nef
    } else {
        FormatTag::Generic
    }
}

/// Whether the extension of a path is `format`, ignoring case.
pub open spec fn specific_format_of(p: Seq<char>, format: Seq<char>) -> bool {
    extension_of(p) is Some && lower_of(extension_of(p)->0) == lower_of(format)
}

/// The family of a path.
pub open spec fn format_of(p: Seq<char>) -> FormatTag {
    match extension_of(p) {
        None => FormatTag::Generic,
        Some(e) => tag_of_extension(lower_of(e)),
    }
}

proof fn lemma_trim_tail_prefix(p: Seq<char>, e: int)
    requires
        0 <= e < p.len(),
        p[e] == '/' || (p[e] == '.' && (e == 0 || p[e - 1] == '/')),
    ensures
        trim_tail(p.subrange(0, e + 1)) == trim_tail(p.subrange(0, e)),
{
    assert(p.subrange(0, e + 1).drop_last() =~= p.subrange(0, e));
}

fn last_index_in(s: &Vec<char>, lo: usize, hi: usize, c: char) -> (r: Option<usize>)
    requires
        lo <= hi <= s.len(),
    ensures
        match r {
            None => last_index_of(s@.subrange(lo as int, hi as int), c) == -1,
            Some(k) => lo <= k < hi && last_index_of(s@.subrange(lo as int, hi as int), c)
                == k - lo,
        },
{
    let mut j: usize = hi;
    while j > lo
        invariant
            lo <= j <= hi <= s.len(),
            last_index_of(s@.subrange(lo as int, hi as int), c) == last_index_of(
                s@.subrange(lo as int, j as int),
                c,
            ),
        decreases j,
    {
        if s[j - 1] == c {
            return Some(j - 1);
        }
        assert(s@.subrange(lo as int, j as int).drop_last() =~= s@.subrange(
            lo as int,
            j - 1,
        ));
        j = j - 1;
    }
    None
}

/// The lower-case extension of a path, if it has one.
fn lowered_extension(path: &str) -> (r: Option<Vec<char>>)
    ensures
        match r {
            None => extension_of(path@) is None,
            Some(e) => extension_of(path@) is Some && e@ == lower_of(extension_of(path@)->0),
        },
{
    let p = chars_of(path);
    let ghost ps = p@;
    let mut e: usize = p.len();
    assert(ps.subrange(0, e as int) =~= ps);
    loop
        invariant
            e <= p.len(),
            p@ == ps,
            trim_tail(ps) == trim_tail(ps.subrange(0, e as int)),
        ensures
            e <= p.len(),
            trim_tail(ps) == trim_tail(ps.subrange(0, e as int)),
            e == 0 || (ps[e - 1] != '/' && !(ps[e - 1] == '.' && (e == 1 || ps[e - 2] == '/'))),
        decreases e,
    {
        if e > 0 && p[e - 1] == '/' {
            proof { lemma_trim_tail_prefix(ps, e - 1); }
            e = e - 1;
        } else if e > 0 && p[e - 1] == '.' && (e == 1 || p[e - 2] == '/') {
            proof { lemma_trim_tail_prefix(ps, e - 1); }
            e = e - 1;
        } else {
            break;
        }
    }
    let ghost t = ps.subrange(0, e as int);
    proof {
        if e > 0 {
            assert(t.last() == ps[e - 1]);
            if e >= 2 {
                assert(t[t.len() - 2] == ps[e - 2]);
            }
        }
    }
    assert(trim_tail(t) == t);
    let start: usize = match last_index_in(&p, 0, e, '/') {
        None => 0,
        Some(k) => k + 1,
    };
    assert(ps.subrange(0, e as int) =~= t.subrange(0, e as int));
    let ghost name = t.subrange(start as int, e as int);
    assert(name =~= ps.subrange(start as int, e as int));
    if start == e || (e - start == 2 && p[start] == '.' && p[start + 1] == '.') {
        proof {
            if start != e {
                assert(name =~= seq!['.', '.']);
            }
        }
        return None;
    }
    assert(name != seq!['.', '.']) by {
        if name == seq!['.', '.'] {
            assert(name[0] == p@[start as int]);
            assert(name[1] == p@[start + 1]);
        }
    }
    match last_index_in(&p, start, e, '.') {
        None => None,
        Some(k) => {
            if k == start {
                None
            } else {
                let mut ext: Vec<char> = Vec::new();
                let mut i: usize = k + 1;
                while i < e
                    invariant
                        k + 1 <= i <= e <= p.len(),
                        p@ == ps,
                        ext@ == ps.subrange(k + 1, i as int),
                    decreases e - i,
                {
                    ext.push(p[i]);
                    i = i + 1;
                    assert(ext@ =~= ps.subrange(k + 1, i as int));
                }
                assert(ext@ =~= name.subrange(k - start + 1, name.len() as int));
                let text = string_of(&ext);
                let folded = lowercase(text.as_str());
                Some(chars_of(folded.as_str()))
            }
        },
    }
}

/// The RAW family of a path, from its extension, ignoring case.
/// A path without an extension is `Generic`.
pub fn classify_format(path: &str) -> (r: FormatTag)
    ensures
        r == format_of(path@),
{
    match lowered_extension(path) {
        None => FormatTag::Generic,
        Some(e) => {
            if e.len() == 3 && e[0] == 'r' && e[1] == 'a' && e[2] == 'f' {
                assert(e@ =~= seq!['r', 'a', 'f']);
                FormatTag::Raf
            } else if e.len() == 3 && e[0] == 'a' && e[1] == 'r' && e[2] == 'w' {
                assert(e@ =~= seq!['a', 'r', 'w']);
                FormatTag::Arw
            } else if e.len() == 3 && e[0] == 'c' && e[1] == 'r' && (e[2] == '2' || e[2] == '3') {
                assert(e@ =~= seq!['c', 'r', '2'] || e@ =~= seq!['c', 'r', '3']);
                FormatTag::Canon
            } else if e.len() == 3 && e[0] == 'n' && e[1] == 'e' && e[2] == 'f' {
                assert(e@ =~= seq!['n', 'e', 'f']);
                FormatTag::Nef
            } else {
                FormatTag::Generic
            }
        },
    }
}

/// Whether the extension of `path` equals `format`, ignoring case.
/// A path without an extension matches no format.
pub fn is_specific_raw_format(path: &str, format: &str) -> (r: bool)
    ensures
        r == specific_format_of(path@, format@),
{
    match lowered_extension(path) {
        None => false,
        Some(e) => {
            let folded = lowercase(format);
            let f = chars_of(folded.as_str());
            if e.len() != f.len() {
                return false;
            }
            let mut i: usize = 0;
            while i < e.len()
                invariant
                    e.len() == f.len(),
                    extension_of(path@) is Some,
                    e@ == lower_of(extension_of(path@)->0),
                    f@ == lower_of(format@),
                    i <= e.len(),
                    forall|j: int| 0 <= j < i ==> e@[j] == f@[j],
                decreases e.len() - i,
            {
                if e[i] != f[i] {
                    assert(e@[i as int] != f@[i as int]);
                    assert(e@ != f@);
                    return false;
                }
                i = i + 1;
            }
            assert(e@ =~= f@);
            true
        },
    }
}

proof fn lemma_lower_char_fixed(c: char, d: char)
    requires
        d == '/' || d == '.',
    ensures
        (lower_char(c) == d) == (c == d),
{
}

proof fn lemma_lower_drop_last(s: Seq<char>)
    requires
        s.len() > 0,
    ensures
        lower(s).drop_last() == lower(s.drop_last()),
        lower(s).last() == lower_char(s.last()),
{
    assert(lower(s).drop_last() =~= lower(s.drop_last()));
}

proof fn lemma_trim_tail_lower(p: Seq<char>)
    ensures
        trim_tail(lower(p)) == lower(trim_tail(p)),
    decreases p.len(),
{
    if p.len() > 0 {
        lemma_lower_drop_last(p);
        lemma_lower_char_fixed(p.last(), '/');
        lemma_lower_char_fixed(p.last(), '.');
        if p.len() >= 2 {
            assert(lower(p)[p.len() - 2] == lower_char(p[p.len() - 2]));
            lemma_lower_char_fixed(p[p.len() - 2], '/');
        }
        lemma_trim_tail_lower(p.drop_last());
    }
}

proof fn lemma_last_index_lower(s: Seq<char>, c: char)
    requires
        c == '/' || c == '.',
    ensures
        last_index_of(lower(s), c) == last_index_of(s, c),
    decreases s.len(),
{
    if s.len() > 0 {
        lemma_lower_drop_last(s);
        lemma_lower_char_fixed(s.last(), c);
        lemma_last_index_lower(s.drop_last(), c);
    }
}

proof fn lemma_last_index_bounds(s: Seq<char>, c: char)
    ensures
        -1 <= last_index_of(s, c) < s.len(),
    decreases s.len(),
{
    if s.len() > 0 {
        lemma_last_index_bounds(s.drop_last(), c);
    }
}

proof fn lemma_lower_subrange(s: Seq<char>, i: int, j: int)
    requires
        0 <= i <= j <= s.len(),
    ensures
        lower(s).subrange(i, j) == lower(s.subrange(i, j)),
{
    assert(lower(s).subrange(i, j) =~= lower(s.subrange(i, j)));
}

proof fn lemma_lower_idempotent(s: Seq<char>)
    ensures
        lower(lower(s)) == lower(s),
{
    assert(lower(lower(s)) =~= lower(s));
}

/// The extension of a case-folded path is the case-folded extension.
proof fn lemma_extension_lower(p: Seq<char>)
    ensures
        match extension_of(p) {
            None => extension_of(lower(p)) is None,
            Some(e) => extension_of(lower(p)) == Some(lower(e)),
        },
{
    let t = trim_tail(p);
    lemma_trim_tail_lower(p);
    lemma_last_index_lower(t, '/');
    lemma_last_index_bounds(t, '/');
    let k = last_index_of(t, '/') + 1;
    let name = t.subrange(k, t.len() as int);
    lemma_lower_subrange(t, k, t.len() as int);
    let lname = lower(name);
    assert(file_name_of(lower(p)) == if lname.len() == 0 || lname == seq!['.', '.'] {
        None
    } else {
        Some(lname)
    });
    if name.len() == 2 {
        lemma_lower_char_fixed(name[0], '.');
        lemma_lower_char_fixed(name[1], '.');
        assert(lname[0] == lower_char(name[0]));
        assert(lname[1] == lower_char(name[1]));
        assert((lname =~= seq!['.', '.']) == (name =~= seq!['.', '.']));
    }
    if name.len() != 0 && name != seq!['.', '.'] {
        lemma_last_index_lower(name, '.');
        lemma_last_index_bounds(name, '.');
        let d = last_index_of(name, '.');
        if d > 0 {
            lemma_lower_subrange(name, d + 1, name.len() as int);
        }
    }
}

/// Paths that differ only in the case of ASCII letters have extensions
/// that differ only so, and the same family and the same answer to every
/// format test whenever those extensions have the same lower-case form.
pub proof fn lemma_format_ignores_case(a: Seq<char>, b: Seq<char>)
    requires
        lower(a) == lower(b),
    ensures
        extension_of(a) is Some <==> extension_of(b) is Some,
        extension_of(a) is Some ==> lower(extension_of(a)->0) == lower(extension_of(b)->0),
        extension_of(a) is Some && lower_of(extension_of(a)->0) == lower_of(extension_of(b)->0)
            ==> format_of(a) == format_of(b) && forall|f: Seq<char>|
            specific_format_of(a, f) == #[trigger] specific_format_of(b, f),
        extension_of(a) is None ==> format_of(a) == format_of(b) && format_of(a)
            == FormatTag::Generic && forall|f: Seq<char>|
            !specific_format_of(a, f) && !#[trigger] specific_format_of(b, f),
{
    lemma_extension_lower(a);
    lemma_extension_lower(b);
    match extension_of(a) {
        Some(e) => lemma_lower_idempotent(e),
        None => {},
    }
    match extension_of(b) {
        Some(e) => lemma_lower_idempotent(e),
        None => {},
    }
}

} // verus!
