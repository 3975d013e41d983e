//! Character-level string helpers: concatenation, case queries, lexicographic
//! order, and path fragments (basename, parent, extension) used by the
//! filters, the output sort and command-template substitution.

use vstd::prelude::*;

verus! {

/// Relies on String::push_str: appends the characters of `t` to `s`.
#[verifier::external_body]
pub fn append_str(s: &mut String, t: &str)
    ensures
        final(s)@ == old(s)@ + t@,
{
    s.push_str(t);
}

/// The two strings joined.
pub fn concat_str(a: &str, b: &str) -> (r: String)
    ensures
        r@ == a@ + b@,
{
    let mut r = a.to_owned();
    append_str(&mut r, b);
    r
}

/// The characters of `s` folded to lower case; the result depends on the
/// characters alone.
pub uninterp spec fn lower_of(s: Seq<char>) -> Seq<char>;

/// Relies on str::to_lowercase: Unicode lowercasing of every character,
/// a function of the characters alone; an empty string stays empty.
#[verifier::external_body]
pub fn to_lowercase(s: &str) -> (r: String)
    ensures
        r@ == lower_of(s@),
        s@.len() == 0 ==> r@.len() == 0,
{
    s.to_lowercase()
}

/// Whether one character has the Unicode uppercase property.
pub uninterp spec fn is_upper_char(c: char) -> bool;

/// Relies on char::is_uppercase: the Unicode uppercase property of one
/// character, a function of the character alone.
#[verifier::external_body]
pub fn char_is_uppercase(c: char) -> (r: bool)
    ensures
        r == is_upper_char(c),
{
    c.is_uppercase()
}

/// Some character of `s` is uppercase.
pub open spec fn has_upper(s: Seq<char>) -> bool {
    exists|i: int| 0 <= i < s.len() && is_upper_char(s[i])
}

/// Whether the string holds at least one uppercase character.
pub fn has_uppercase_char(s: &str) -> (r: bool)
    ensures
        r == has_upper(s@),
{
    let n = s.unicode_len();
    let mut i: usize = 0;
    while i < n
        invariant
            n == s@.len(),
            i <= n,
            forall|j: int| 0 <= j < i ==> !is_upper_char(s@[j]),
        decreases n - i,
    {
        let c = s.get_char(i);
        if char_is_uppercase(c) {
            return true;
        }
        i = i + 1;
    }
    false
}

/// Lexicographic order on character sequences, by Unicode scalar value.
pub open spec fn lex_le(a: Seq<char>, b: Seq<char>) -> bool
    decreases a.len(),
{
    if a.len() == 0 {
        true
    } else if b.len() == 0 {
        false
    } else if (a[0] as u32) < (b[0] as u32) {
        true
    } else if (a[0] as u32) > (b[0] as u32) {
        false
    } else {
        lex_le(a.drop_first(), b.drop_first())
    }
}

/// The lexicographic order is total: of any two sequences, one is below the
/// other.
pub proof fn lemma_lex_le_total(a: Seq<char>, b: Seq<char>)
    ensures
        lex_le(a, b) || lex_le(b, a),
    decreases a.len(),
{
    if a.len() == 0 || b.len() == 0 {
    } else if (a[0] as u32) < (b[0] as u32) || (a[0] as u32) > (b[0] as u32) {
    } else {
        lemma_lex_le_total(a.drop_first(), b.drop_first());
    }
}

/// The lexicographic order is reflexive.
pub proof fn lemma_lex_le_refl(a: Seq<char>)
    ensures
        lex_le(a, a),
    decreases a.len(),
{
    if a.len() > 0 {
        lemma_lex_le_refl(a.drop_first());
    }
}

/// The lexicographic order is transitive.
pub proof fn lemma_lex_le_trans(a: Seq<char>, b: Seq<char>, c: Seq<char>)
    requires
        lex_le(a, b),
        lex_le(b, c),
    ensures
        lex_le(a, c),
    decreases a.len(),
{
    if a.len() == 0 {
    } else if b.len() == 0 || c.len() == 0 {
    } else {
        if (a[0] as u32) == (b[0] as u32) && (b[0] as u32) == (c[0] as u32) {
            lemma_lex_le_trans(a.drop_first(), b.drop_first(), c.drop_first());
        }
    }
}

/// Whether `a` comes no later than `b` in lexicographic order.
pub fn str_lex_le(a: &str, b: &str) -> (r: bool)
    ensures
        r == lex_le(a@, b@),
{
    let la = a.unicode_len();
    let lb = b.unicode_len();
    let mut i: usize = 0;
    proof {
        assert(a@.skip(0) =~= a@);
        assert(b@.skip(0) =~= b@);
    }
    loop
        invariant
            la == a@.len(),
            lb == b@.len(),
            i <= la,
            i <= lb,
            lex_le(a@, b@) == lex_le(a@.skip(i as int), b@.skip(i as int)),
        decreases la - i,
    {
        if i >= la {
            proof {
                assert(a@.skip(i as int).len() == 0);
            }
            return true;
        }
        if i >= lb {
            proof {
                assert(a@.skip(i as int).len() > 0);
                assert(b@.skip(i as int).len() == 0);
            }
            return false;
        }
        let ca = a.get_char(i);
        let cb = b.get_char(i);
        let ua = ca as u32;
        let ub = cb as u32;
        proof {
            assert(a@.skip(i as int)[0] == a@[i as int]);
            assert(b@.skip(i as int)[0] == b@[i as int]);
        }
        if ua < ub {
            return true;
        }
        if ua > ub {
            return false;
        }
        proof {
            assert(a@.skip(i as int).drop_first() =~= a@.skip(i as int + 1));
            assert(b@.skip(i as int).drop_first() =~= b@.skip(i as int + 1));
        }
        i = i + 1;
    }
}

/// The index of the last occurrence of `c` in `s`, or -1 when absent.
pub open spec fn rlast_index(s: Seq<char>, c: char) -> int
    decreases s.len(),
{
    if s.len() == 0 {
        -1
    } else if s[s.len() - 1] == c {
        s.len() - 1
    } else {
        rlast_index(s.drop_last(), c)
    }
}

/// The last occurrence is an occurrence, is the last one, and -1 means none.
pub proof fn lemma_rlast_index(s: Seq<char>, c: char)
    ensures
        -1 <= rlast_index(s, c) < s.len(),
        rlast_index(s, c) >= 0 ==> s[rlast_index(s, c)] == c,
        forall|j: int| rlast_index(s, c) < j < s.len() ==> s[j] != c,
    decreases s.len(),
{
    if s.len() == 0 {
    } else if s[s.len() - 1] == c {
    } else {
        lemma_rlast_index(s.drop_last(), c);
        assert forall|j: int| rlast_index(s, c) < j < s.len() implies s[j] != c by {
            if j < s.len() - 1 {
                assert(s.drop_last()[j] == s[j]);
            }
        }
    }
}

/// The position of the last occurrence of `c` in `s`, if any.
pub fn rfind_char(s: &str, c: char) -> (r: Option<usize>)
    ensures
        r matches Some(i) ==> rlast_index(s@, c) == i as int,
        r is None ==> rlast_index(s@, c) == -1,
{
    let n = s.unicode_len();
    let mut j: usize = n;
    proof {
        assert(s@.take(n as int) =~= s@);
    }
    while j > 0
        invariant
            n == s@.len(),
            j <= n,
            rlast_index(s@, c) == rlast_index(s@.take(j as int), c),
        decreases j,
    {
        let ch = s.get_char(j - 1);
        proof {
            assert(s@.take(j as int)[j - 1] == s@[j - 1]);
        }
        if ch == c {
            return Some(j - 1);
        }
        proof {
            assert(s@.take(j as int).drop_last() =~= s@.take(j as int - 1));
        }
        j = j - 1;
    }
    proof {
        assert(s@.take(0).len() == 0);
    }
    None
}

/// The fragment after the last `/`: the whole path when it has no `/`.
pub open spec fn basename_of(p: Seq<char>) -> Seq<char> {
    p.subrange(rlast_index(p, '/') + 1, p.len() as int)
}

/// The fragment before the last `/`: empty when the path has no `/`.
pub open spec fn parent_of(p: Seq<char>) -> Seq<char> {
    if rlast_index(p, '/') >= 0 {
        p.subrange(0, rlast_index(p, '/'))
    } else {
        Seq::empty()
    }
}

/// The fragment after the last `.` of a basename, provided that dot is not
/// its first character (a leading dot marks a hidden name, not an extension).
pub open spec fn extension_of(name: Seq<char>) -> Option<Seq<char>> {
    let i = rlast_index(name, '.');
    if i > 0 {
        Some(name.subrange(i + 1, name.len() as int))
    } else {
        None
    }
}

/// The basename fragment of a path.
pub fn basename(p: &str) -> (r: String)
    ensures
        r@ == basename_of(p@),
{
    proof {
        lemma_rlast_index(p@, '/');
    }
    let n = p.unicode_len();
    match rfind_char(p, '/') {
        Some(i) => {
            let frag = p.substring_char(i + 1, n);
            frag.to_owned()
        },
        None => {
            proof {
                assert(basename_of(p@) =~= p@);
            }
            p.to_owned()
        },
    }
}

/// The parent fragment of a path.
pub fn parent_dir(p: &str) -> (r: String)
    ensures
        r@ == parent_of(p@),
{
    proof {
        lemma_rlast_index(p@, '/');
    }
    match rfind_char(p, '/') {
        Some(i) => {
            let frag = p.substring_char(0, i);
            frag.to_owned()
        },
        None => {
            let r = String::new();
            proof {
                assert(r@ =~= parent_of(p@));
            }
            r
        },
    }
}

/// The extension of a basename, if it has one.
pub fn extension(name: &str) -> (r: Option<String>)
    ensures
        r matches Some(e) ==> extension_of(name@) == Some(e@),
        r is None ==> extension_of(name@) is None,
{
    proof {
        lemma_rlast_index(name@, '.');
    }
    let n = name.unicode_len();
    match rfind_char(name, '.') {
        Some(i) => {
            if i > 0 {
                let frag = name.substring_char(i + 1, n);
                Some(frag.to_owned())
            } else {
                None
            }
        },
        None => None,
    }
}

} // verus!
