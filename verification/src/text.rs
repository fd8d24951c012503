use vstd::prelude::*;
use vstd::string::*;

verus! {

/// The characters of a string.
pub fn chars_of(s: &str) -> (v: Vec<char>)
    ensures
        v@ == s@,
{
    let n: usize = s.unicode_len();
    let mut v: Vec<char> = Vec::new();
    let mut i: usize = 0;
    while i < n
        invariant
            i <= n,
            n == s@.len(),
            v@ == s@.subrange(0, i as int),
        decreases n - i,
    {
        v.push(s.get_char(i));
        i = i + 1;
        assert(v@ =~= s@.subrange(0, i as int));
    }
    assert(s@.subrange(0, n as int) =~= s@);
    v
}

/// `needle` occurs in `hay` starting at position `i`.
pub open spec fn occurs_at(hay: Seq<char>, needle: Seq<char>, i: int) -> bool {
    0 <= i && i + needle.len() <= hay.len() && hay.subrange(i, i + needle.len() as int) == needle
}

/// `needle` occurs somewhere in `hay`.
pub open spec fn occurs_in(hay: Seq<char>, needle: Seq<char>) -> bool {
    exists|i: int| #[trigger] occurs_at(hay, needle, i)
}

/// Whether `needle` occurs in `hay`.
pub fn str_contains(hay: &str, needle: &str) -> (b: bool)
    ensures
        b == occurs_in(hay@, needle@),
{
    let h = chars_of(hay);
    let n = chars_of(needle);
    let hl: usize = h.len();
    let nl: usize = n.len();
    if nl > hl {
        assert forall|i: int| !#[trigger] occurs_at(hay@, needle@, i) by {}
        return false;
    }
    let mut i: usize = 0;
    while i <= hl - nl
        invariant
            hl == h@.len(),
            nl == n@.len(),
            nl <= hl,
            h@ == hay@,
            n@ == needle@,
            i <= hl - nl + 1,
            forall|j: int| 0 <= j < i ==> !#[trigger] occurs_at(hay@, needle@, j),
        decreases hl - nl + 1 - i,
    {
        let mut k: usize = 0;
        let mut same: bool = true;
        while k < nl
            invariant
                k <= nl,
                i + nl <= hl,
                hl == h@.len(),
                nl == n@.len(),
                same == (forall|m: int| 0 <= m < k ==> h@[i + m] == n@[m]),
            decreases nl - k,
        {
            if h[i + k] != n[k] {
                same = false;
            }
            k = k + 1;
        }
        if same {
            assert(hay@.subrange(i as int, i + nl) =~= needle@);
            assert(occurs_at(hay@, needle@, i as int));
            return true;
        }
        assert(!occurs_at(hay@, needle@, i as int)) by {
            if hay@.subrange(i as int, i + nl) == needle@ {
                assert forall|m: int| 0 <= m < nl implies h@[i + m] == n@[m] by {
                    assert(hay@.subrange(i as int, i + nl)[m] == hay@[i + m]);
                }
            }
        }
        i = i + 1;
    }
    assert forall|j: int| !#[trigger] occurs_at(hay@, needle@, j) by {}
    false
}

/// `parts` joined with `sep` between consecutive parts.
pub open spec fn seq_join(parts: Seq<Seq<char>>, sep: Seq<char>) -> Seq<char>
    decreases parts.len(),
{
    if parts.len() == 0 {
        seq![]
    } else if parts.len() == 1 {
        parts[0]
    } else {
        seq_join(parts.drop_last(), sep) + sep + parts.last()
    }
}

/// Views of a list of strings.
pub open spec fn string_views(v: Seq<String>) -> Seq<Seq<char>> {
    v.map_values(|s: String| s@)
}

/// Joins strings with a separator.
pub fn join_with(parts: &Vec<String>, sep: &str) -> (r: String)
    ensures
        r@ == seq_join(string_views(parts@), sep@),
{
    let mut r = String::new();
    let n: usize = parts.len();
    let ghost views = string_views(parts@);
    let mut i: usize = 0;
    while i < n
        invariant
            i <= n,
            n == parts@.len(),
            views == string_views(parts@),
            r@ == seq_join(views.take(i as int), sep@),
        decreases n - i,
    {
        assert(views.take(i + 1).drop_last() =~= views.take(i as int));
        assert(views.take(i + 1).last() == parts@[i as int]@);
        if i > 0 {
            r.append(sep);
        }
        r.append(parts[i].as_str());
        if i == 0 {
            assert(r@ =~= seq_join(views.take(1), sep@));
        }
        i = i + 1;
    }
    assert(views.take(n as int) =~= views);
    r
}

/// What upper-casing one character gives (possibly several characters).
pub uninterp spec fn spec_char_uppercase(c: char) -> Seq<char>;

/// Upper-cases one character as the standard library does.
#[verifier::external_body]
fn char_uppercase(c: char) -> (r: Vec<char>)
    ensures
        r@ == spec_char_uppercase(c),
{
    c.to_uppercase().collect()
}

/// Display form of an identifier: each `_` becomes a space and the first
/// character of each `_`-separated word is upper-cased.
pub open spec fn display_chars(s: Seq<char>) -> Seq<char>
    decreases s.len(),
{
    if s.len() == 0 {
        seq![]
    } else {
        let pre = display_chars(s.drop_last());
        let i = s.len() - 1;
        let c = s[i];
        if c == '_' {
            pre.push(' ')
        } else if i == 0 || s[i - 1] == '_' {
            pre + spec_char_uppercase(c)
        } else {
            pre.push(c)
        }
    }
}

/// The display form of `s`: words split at `_`, each capitalised, joined
/// with spaces.
pub fn display_name(s: &str) -> (r: String)
    ensures
        r@ == display_chars(s@),
{
    let cs = chars_of(s);
    let n: usize = cs.len();
    let mut out: Vec<char> = Vec::new();
    let mut i: usize = 0;
    while i < n
        invariant
            i <= n,
            n == cs@.len(),
            cs@ == s@,
            out@ == display_chars(s@.take(i as int)),
        decreases n - i,
    {
        let c = cs[i];
        let ghost t = s@.take(i + 1);
        assert(t.drop_last() =~= s@.take(i as int));
        assert(t.last() == c);
        if c == '_' {
            out.push(' ');
        } else if i == 0 || cs[i - 1] == '_' {
            let up = char_uppercase(c);
            let mut k: usize = 0;
            let ghost base = out@;
            while k < up.len()
                invariant
                    k <= up@.len(),
                    out@ == base + up@.take(k as int),
                decreases up@.len() - k,
            {
                out.push(up[k]);
                k = k + 1;
                assert(out@ =~= base + up@.take(k as int));
            }
            assert(up@.take(up@.len() as int) =~= up@);
            if i > 0 {
                assert(t[i - 1] == s@[i - 1]);
            }
        } else {
            assert(t[i - 1] == s@[i - 1]);
            out.push(c);
        }
        i = i + 1;
    }
    assert(s@.take(n as int) =~= s@);
    string_from_chars(&out)
}

/// Appends one character to a string (`String::push`).
#[verifier::external_body]
fn push_char(s: &mut String, c: char)
    ensures
        final(s)@ == old(s)@.push(c),
{
    s.push(c)
}

/// The string with exactly these characters.
pub fn string_from_chars(cs: &Vec<char>) -> (r: String)
    ensures
        r@ == cs@,
{
    let mut r = String::new();
    let n: usize = cs.len();
    let mut i: usize = 0;
    while i < n
        invariant
            i <= n,
            n == cs@.len(),
            r@ == cs@.take(i as int),
        decreases n - i,
    {
        push_char(&mut r, cs[i]);
        i = i + 1;
        assert(r@ =~= cs@.take(i as int));
    }
    assert(cs@.take(n as int) =~= cs@);
    r
}

} // verus!
