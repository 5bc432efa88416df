use vstd::prelude::*;

verus! {

/// Where the catalog scans and which database it talks to.
pub struct Settings {
    pub directory_to_scan: String,
    pub pg_connection_string: String,
}

/// What one character of a path becomes inside a quoted SQL literal:
/// a single quote is doubled, every other character stands as it is.
pub open spec fn escape_char(c: char) -> Seq<char> {
    if c == '\'' {
        seq!['\'', '\'']
    } else {
        seq![c]
    }
}

/// Every single quote of `s` doubled (`str::replace(s, "'", "''")`).
pub open spec fn escaped(s: Seq<char>) -> Seq<char>
    decreases s.len(),
{
    if s.len() == 0 {
        Seq::empty()
    } else {
        escape_char(s[0]) + escaped(s.drop_first())
    }
}

/// Every pair of single quotes of `s`, taken from the left without overlap,
/// folded into one (`str::replace(s, "''", "'")`).
pub open spec fn unescaped(s: Seq<char>) -> Seq<char>
    decreases s.len(),
{
    if s.len() == 0 {
        Seq::empty()
    } else if s.len() >= 2 && s[0] == '\'' && s[1] == '\'' {
        seq!['\''] + unescaped(s.skip(2))
    } else {
        seq![s[0]] + unescaped(s.drop_first())
    }
}

/// Read from the left, every single quote of `s` is the first of a pair of
/// quotes: `s` can stand between the quotes of an SQL string literal.
pub open spec fn quotes_paired(s: Seq<char>) -> bool
    decreases s.len(),
{
    if s.len() == 0 {
        true
    } else if s[0] == '\'' {
        s.len() >= 2 && s[1] == '\'' && quotes_paired(s.skip(2))
    } else {
        quotes_paired(s.drop_first())
    }
}

/// Appends one character to a string.
#[verifier::external_body]
pub(crate) fn push_char(s: &mut String, c: char)
    ensures
        final(s)@ == old(s)@.push(c),
{
    s.push(c);
}

/// The characters of `s`, in order.
pub(crate) fn chars_of(s: &str) -> (v: Vec<char>)
    ensures
        v@ == s@,
{
    let mut v: Vec<char> = Vec::new();
    for c in it: s.chars()
        invariant
            v@ == it.seq().take(it.index() as int),
            it.seq() == s@,
    {
        v.push(c);
    }
    v
}

proof fn lemma_escaped_push(s: Seq<char>, c: char)
    ensures
        escaped(s.push(c)) == escaped(s) + escape_char(c),
    decreases s.len(),
{
    if s.len() == 0 {
        assert(s.push(c).drop_first() =~= Seq::<char>::empty());
        assert(escaped(s.push(c).drop_first()) =~= Seq::<char>::empty());
        assert(escaped(s) =~= Seq::<char>::empty());
        assert(escaped(s.push(c)) =~= escape_char(c));
    } else {
        assert(s.push(c).drop_first() =~= s.drop_first().push(c));
        lemma_escaped_push(s.drop_first(), c);
        assert(escaped(s.push(c)) =~= escaped(s) + escape_char(c));
    }
}

/// Doubles every single quote of `file_path`, so that it can stand inside a
/// quoted SQL literal.
pub fn escape_sql_string(file_path: &String) -> (r: String)
    ensures
        r@ == escaped(file_path@),
{
    let mut r = String::new();
    let s: &str = file_path.as_str();
    for c in it: s.chars()
        invariant
            it.seq() == file_path@,
            r@ == escaped(it.seq().take(it.index() as int)),
    {
        proof {
            let i = it.index() as int;
            assert(it.seq().take(i + 1) =~= it.seq().take(i).push(c));
            lemma_escaped_push(it.seq().take(i), c);
        }
        if c == '\'' {
            push_char(&mut r, '\'');
            push_char(&mut r, '\'');
        } else {
            push_char(&mut r, c);
        }
    }
    proof {
        assert(file_path@.take(file_path@.len() as int) =~= file_path@);
    }
    r
}

/// Folds every pair of single quotes of `file_path` back into one: the
/// inverse of [`escape_sql_string`].
pub fn unescape_sql_string(file_path: &String) -> (r: String)
    ensures
        r@ == unescaped(file_path@),
{
    let v = chars_of(file_path.as_str());
    let n = v.len();
    let mut r = String::new();
    let mut i: usize = 0;
    proof {
        assert(v@.skip(0) =~= v@);
    }
    while i < n
        invariant
            n == v@.len(),
            v@ == file_path@,
            i <= n,
            r@ + unescaped(v@.skip(i as int)) == unescaped(v@),
        decreases n - i,
    {
        let ghost rest = v@.skip(i as int);
        if v[i] == '\'' && i + 1 < n && v[i + 1] == '\'' {
            proof {
                assert(rest.skip(2) =~= v@.skip(i + 2));
                assert(r@.push('\'') + unescaped(v@.skip(i + 2)) =~= r@ + unescaped(rest));
            }
            push_char(&mut r, '\'');
            i = i + 2;
        } else {
            let c = v[i];
            proof {
                assert(rest.drop_first() =~= v@.skip(i + 1));
                assert(r@.push(c) + unescaped(v@.skip(i + 1)) =~= r@ + unescaped(rest));
            }
            push_char(&mut r, c);
            i = i + 1;
        }
    }
    proof {
        assert(unescaped(v@.skip(n as int)) =~= Seq::<char>::empty());
        assert(r@ + Seq::<char>::empty() =~= r@);
    }
    r
}

/// Unescaping an escaped string gives the string back: a path stored in
/// escaped form is found again on disk after unescaping.
pub proof fn lemma_unescape_escape(s: Seq<char>)
    ensures
        unescaped(escaped(s)) == s,
    decreases s.len(),
{
    if s.len() > 0 {
        let rest = s.drop_first();
        lemma_unescape_escape(rest);
        let e = escaped(s);
        if s[0] == '\'' {
            assert(e =~= seq!['\'', '\''] + escaped(rest));
            assert(e.skip(2) =~= escaped(rest));
            assert(unescaped(e) =~= seq!['\''] + rest);
        } else {
            assert(e =~= seq![s[0]] + escaped(rest));
            assert(e.drop_first() =~= escaped(rest));
            assert(unescaped(e) =~= seq![s[0]] + rest);
        }
        assert(seq![s[0]] + rest =~= s);
    }
}

/// The escaped form of any string can stand between the quotes of an SQL
/// string literal: each of its single quotes is the first of a pair.
pub proof fn lemma_escape_pairs_quotes(s: Seq<char>)
    ensures
        quotes_paired(escaped(s)),
    decreases s.len(),
{
    if s.len() > 0 {
        let rest = s.drop_first();
        lemma_escape_pairs_quotes(rest);
        let e = escaped(s);
        if s[0] == '\'' {
            assert(e =~= seq!['\'', '\''] + escaped(rest));
            assert(e.skip(2) =~= escaped(rest));
        } else {
            assert(e =~= seq![s[0]] + escaped(rest));
            assert(e.drop_first() =~= escaped(rest));
        }
    }
}

/// On a string whose quotes come in pairs (the body of an SQL literal),
/// escaping undoes unescaping.
pub proof fn lemma_escape_unescape(t: Seq<char>)
    requires
        quotes_paired(t),
    ensures
        escaped(unescaped(t)) == t,
    decreases t.len(),
{
    if t.len() > 0 {
        let u = unescaped(t);
        if t[0] == '\'' {
            let rest = t.skip(2);
            lemma_escape_unescape(rest);
            assert(u =~= seq!['\''] + unescaped(rest));
            assert(u.drop_first() =~= unescaped(rest));
            assert(escaped(u) =~= seq!['\'', '\''] + rest);
            assert(seq!['\'', '\''] + rest =~= t);
        } else {
            let rest = t.drop_first();
            lemma_escape_unescape(rest);
            assert(u =~= seq![t[0]] + unescaped(rest));
            assert(u.drop_first() =~= unescaped(rest));
            assert(escaped(u) =~= seq![t[0]] + rest);
            assert(seq![t[0]] + rest =~= t);
        }
    }
}

} // verus!
