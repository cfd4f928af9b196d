//! Text handling: search queries, substring matching and safe file names.
use vstd::prelude::*;
use vstd::string::StrSliceExecFns;

verus! {

/// Whether `c` is alphabetic or numeric in the Unicode sense, as
/// `char::is_alphanumeric` decides it.
pub uninterp spec fn alnum(c: char) -> bool;

/// Relies on `char::is_alphanumeric`: true when the character is alphabetic
/// or numeric, which depends on the character alone.
#[verifier::external_body]
fn is_alnum(c: char) -> (r: bool)
    ensures
        r == alnum(c),
{
    c.is_alphanumeric()
}

/// `q` occurs in `s` at position `i`, and `i` starts a word: it is the start
/// of `s` or follows a character that is not alphanumeric.
pub open spec fn starts_word_at(q: Seq<char>, s: Seq<char>, i: int) -> bool {
    &&& 0 <= i
    &&& i + q.len() <= s.len()
    &&& (i == 0 || !alnum(s[i - 1]))
    &&& s.subrange(i, i + q.len()) == q
}

/// Some word of `s` starts with `q`: `q` read as a prefix query.
pub open spec fn has_word_prefix(q: Seq<char>, s: Seq<char>) -> bool {
    exists|i: int| #[trigger] starts_word_at(q, s, i)
}

/// Whether some word of `s` starts with `q`. Every character of `q` is taken
/// literally, quotes included, so no text forms a malformed query.
pub fn word_prefix_in(s: &str, q: &str) -> (r: bool)
    ensures
        r == has_word_prefix(q@, s@),
{
    let n = s.unicode_len();
    let m = q.unicode_len();
    if m > n {
        assert forall|i: int| !#[trigger] starts_word_at(q@, s@, i) by {}
        return false;
    }
    let last = n - m;
    let mut i: usize = 0;
    loop
        invariant
            n == s@.len(),
            m == q@.len(),
            last == n - m,
            i <= last,
            forall|k: int| 0 <= k < i ==> !#[trigger] starts_word_at(q@, s@, k),
        decreases last - i,
    {
        let boundary = i == 0 || !is_alnum(s.get_char(i - 1));
        if boundary {
            let mut j: usize = 0;
            let mut same = true;
            while j < m && same
                invariant
                    n == s@.len(),
                    m == q@.len(),
                    i + m <= n,
                    j <= m,
                    same ==> forall|k: int| 0 <= k < j ==> s@[i + k] == q@[k],
                    !same ==> j > 0 && s@[i + j - 1] != q@[j - 1],
                decreases m - j,
            {
                if s.get_char(i + j) != q.get_char(j) {
                    same = false;
                }
                j = j + 1;
            }
            if same {
                assert(s@.subrange(i as int, i + m) =~= q@);
                assert(starts_word_at(q@, s@, i as int));
                return true;
            }
            assert(s@.subrange(i as int, i + m)[j - 1] != q@[j - 1]);
        }
        assert(!starts_word_at(q@, s@, i as int));
        if i == last {
            assert forall|k: int| !#[trigger] starts_word_at(q@, s@, k) by {
                if 0 <= k && k < i {
                } else if k == i {
                }
            }
            return false;
        }
        i = i + 1;
    }
}

/// Relies on `String::push`: appends one character.
#[verifier::external_body]
pub(crate) fn push_char(s: &mut String, c: char)
    ensures
        final(s)@ == old(s)@.push(c),
{
    s.push(c)
}

/// `s` with every double quote doubled.
pub open spec fn escape_quotes(s: Seq<char>) -> Seq<char>
    decreases s.len(),
{
    if s.len() == 0 {
        Seq::empty()
    } else if s.last() == '"' {
        escape_quotes(s.drop_last()) + seq!['"', '"']
    } else {
        escape_quotes(s.drop_last()).push(s.last())
    }
}

/// The full-text query for the user's text `query`: quotes doubled so that
/// the text stays one term, and a trailing `*` so that it matches as a prefix.
pub fn fts_query(query: &str) -> (r: String)
    ensures
        r@ == escape_quotes(query@).push('*'),
{
    let n = query.unicode_len();
    let mut out = String::new();
    let mut i: usize = 0;
    while i < n
        invariant
            n == query@.len(),
            i <= n,
            out@ == escape_quotes(query@.subrange(0, i as int)),
        decreases n - i,
    {
        let c = query.get_char(i);
        assert(query@.subrange(0, i + 1).drop_last() =~= query@.subrange(0, i as int));
        if c == '"' {
            push_char(&mut out, '"');
            push_char(&mut out, '"');
            assert(out@ =~= escape_quotes(query@.subrange(0, i + 1)));
        } else {
            push_char(&mut out, c);
        }
        i = i + 1;
    }
    assert(query@.subrange(0, n as int) =~= query@);
    push_char(&mut out, '*');
    out
}

/// The character that stands for `c` in a file name: letters, digits,
/// spaces, `-` and `_` stay; anything else becomes `_`.
pub open spec fn safe_char(c: char) -> char {
    if alnum(c) || c == ' ' || c == '-' || c == '_' {
        c
    } else {
        '_'
    }
}

/// `r` is `m` without its leading and trailing spaces.
pub open spec fn trimmed(m: Seq<char>, r: Seq<char>) -> bool {
    exists|a: int, b: int|
        0 <= a <= b <= m.len() && r == #[trigger] m.subrange(a, b) && (forall|k: int|
            0 <= k < a ==> m[k] == ' ') && (forall|k: int| b <= k < m.len() ==> m[k] == ' ') && (a
            < b ==> m[a] != ' ' && m[b - 1] != ' ')
}

/// `name` with each character mapped by `safe_char`.
pub open spec fn mapped_name(name: Seq<char>) -> Seq<char> {
    Seq::new(name.len(), |i: int| safe_char(name[i]))
}

/// The file name made from `name`: mapped, then without leading and
/// trailing spaces.
pub open spec fn sanitized(name: Seq<char>) -> Seq<char> {
    choose|r: Seq<char>| trimmed(mapped_name(name), r)
}

proof fn lemma_trimmed_unique(m: Seq<char>, r1: Seq<char>, r2: Seq<char>)
    requires
        trimmed(m, r1),
        trimmed(m, r2),
    ensures
        r1 == r2,
{
    let (a1, b1) = choose|a: int, b: int|
        0 <= a <= b <= m.len() && r1 == #[trigger] m.subrange(a, b) && (forall|k: int|
            0 <= k < a ==> m[k] == ' ') && (forall|k: int| b <= k < m.len() ==> m[k] == ' ') && (a
            < b ==> m[a] != ' ' && m[b - 1] != ' ');
    let (a2, b2) = choose|a: int, b: int|
        0 <= a <= b <= m.len() && r2 == #[trigger] m.subrange(a, b) && (forall|k: int|
            0 <= k < a ==> m[k] == ' ') && (forall|k: int| b <= k < m.len() ==> m[k] == ' ') && (a
            < b ==> m[a] != ' ' && m[b - 1] != ' ');
    if a1 < b1 && a2 < b2 {
        assert(a1 == a2 && b1 == b2);
    } else if a1 < b1 {
        assert(m[a1] != ' ');
        assert(false);
    } else if a2 < b2 {
        assert(m[a2] != ' ');
        assert(false);
    } else {
        assert(r1 =~= r2);
    }
}

/// A file name made from `name`: each character mapped by `safe_char`, then
/// leading and trailing spaces removed. After the mapping the only whitespace
/// left is the space, so this is the trimmed mapped name.
pub fn sanitize_filename(name: &str) -> (r: String)
    ensures
        r@ == sanitized(name@),
{
    let ghost m = Seq::new(name@.len(), |i: int| safe_char(name@[i]));
    let n = name.unicode_len();
    let mut mapped: Vec<char> = Vec::new();
    let mut i: usize = 0;
    while i < n
        invariant
            n == name@.len(),
            m == Seq::new(name@.len(), |i: int| safe_char(name@[i])),
            i <= n,
            mapped@ =~= m.subrange(0, i as int),
        decreases n - i,
    {
        let c = name.get_char(i);
        let keep = is_alnum(c) || c == ' ' || c == '-' || c == '_';
        if keep {
            mapped.push(c);
        } else {
            mapped.push('_');
        }
        i = i + 1;
    }
    assert(mapped@ =~= m);
    let mut a: usize = 0;
    while a < n && mapped[a] == ' '
        invariant
            n == mapped@.len(),
            a <= n,
            forall|k: int| 0 <= k < a ==> mapped@[k] == ' ',
        decreases n - a,
    {
        a = a + 1;
    }
    let mut b: usize = n;
    while b > a && mapped[b - 1] == ' '
        invariant
            n == mapped@.len(),
            a <= b <= n,
            forall|k: int| b <= k < n ==> mapped@[k] == ' ',
        decreases b,
    {
        b = b - 1;
    }
    let mut out = String::new();
    let mut k: usize = a;
    while k < b
        invariant
            a <= k <= b <= n,
            n == mapped@.len(),
            out@ =~= mapped@.subrange(a as int, k as int),
        decreases b - k,
    {
        push_char(&mut out, mapped[k]);
        k = k + 1;
    }
    assert(out@ == m.subrange(a as int, b as int));
    assert(m =~= mapped_name(name@));
    assert(trimmed(m, out@));
    proof {
        lemma_trimmed_unique(m, out@, sanitized(name@));
    }
    out
}

} // verus!
