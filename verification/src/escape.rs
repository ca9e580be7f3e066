use vstd::prelude::*;

verus! {

/// Expansion of one character of text content. The three markup-structural
/// characters become entities; every other character, the quotes included,
/// stands for itself.
pub open spec fn text_escape_char(c: char) -> Seq<char> {
    if c == '&' {
        seq!['&', 'a', 'm', 'p', ';']
    } else if c == '<' {
        seq!['&', 'l', 't', ';']
    } else if c == '>' {
        seq!['&', 'g', 't', ';']
    } else {
        seq![c]
    }
}

/// Text-content escaping of a whole character sequence.
pub open spec fn text_escaped(s: Seq<char>) -> Seq<char>
    decreases s.len(),
{
    if s.len() == 0 {
        Seq::empty()
    } else {
        text_escape_char(s[0]) + text_escaped(s.drop_first())
    }
}

/// Expansion of one character of an attribute value. The ampersand, the
/// quote delimiter in use (`"`), and `<` become entities.
pub open spec fn attr_escape_char(c: char) -> Seq<char> {
    if c == '&' {
        seq!['&', 'a', 'm', 'p', ';']
    } else if c == '"' {
        seq!['&', 'q', 'u', 'o', 't', ';']
    } else if c == '<' {
        seq!['&', 'l', 't', ';']
    } else {
        seq![c]
    }
}

/// Attribute-value escaping of a whole character sequence.
pub open spec fn attr_escaped(s: Seq<char>) -> Seq<char>
    decreases s.len(),
{
    if s.len() == 0 {
        Seq::empty()
    } else {
        attr_escape_char(s[0]) + attr_escaped(s.drop_first())
    }
}

pub proof fn lemma_text_escaped_push(s: Seq<char>, c: char)
    ensures
        text_escaped(s.push(c)) == text_escaped(s) + text_escape_char(c),
    decreases s.len(),
{
    if s.len() == 0 {
        let e = Seq::<char>::empty();
        assert(s.push(c).drop_first() =~= e);
        assert(s =~= e);
        assert(s.push(c)[0] == c);
        assert(text_escaped(e) == e);
        assert(text_escaped(s.push(c)) == text_escape_char(c) + text_escaped(e));
        assert(text_escape_char(c) + e =~= e + text_escape_char(c));
        assert(text_escaped(s.push(c)) =~= text_escaped(s) + text_escape_char(c));
    } else {
        lemma_text_escaped_push(s.drop_first(), c);
        assert(s.push(c).drop_first() =~= s.drop_first().push(c));
        assert(s.push(c)[0] == s[0]);
        assert(text_escaped(s.push(c)) == text_escape_char(s[0]) + text_escaped(
            s.drop_first().push(c),
        ));
        assert(text_escaped(s.push(c)) == text_escape_char(s[0]) + (text_escaped(s.drop_first())
            + text_escape_char(c)));
        assert(text_escape_char(s[0]) + (text_escaped(s.drop_first()) + text_escape_char(c)) =~= (
        text_escape_char(s[0]) + text_escaped(s.drop_first())) + text_escape_char(c));
        assert(text_escaped(s) == text_escape_char(s[0]) + text_escaped(s.drop_first()));
    }
}

pub proof fn lemma_attr_escaped_push(s: Seq<char>, c: char)
    ensures
        attr_escaped(s.push(c)) == attr_escaped(s) + attr_escape_char(c),
    decreases s.len(),
{
    if s.len() == 0 {
        let e = Seq::<char>::empty();
        assert(s.push(c).drop_first() =~= e);
        assert(s =~= e);
        assert(s.push(c)[0] == c);
        assert(attr_escaped(e) == e);
        assert(attr_escaped(s.push(c)) == attr_escape_char(c) + attr_escaped(e));
        assert(attr_escape_char(c) + e =~= e + attr_escape_char(c));
        assert(attr_escaped(s.push(c)) =~= attr_escaped(s) + attr_escape_char(c));
    } else {
        lemma_attr_escaped_push(s.drop_first(), c);
        assert(s.push(c).drop_first() =~= s.drop_first().push(c));
        assert(s.push(c)[0] == s[0]);
        assert(attr_escaped(s.push(c)) == attr_escape_char(s[0]) + attr_escaped(
            s.drop_first().push(c),
        ));
        assert(attr_escaped(s.push(c)) == attr_escape_char(s[0]) + (attr_escaped(s.drop_first())
            + attr_escape_char(c)));
        assert(attr_escape_char(s[0]) + (attr_escaped(s.drop_first()) + attr_escape_char(c)) =~= (
        attr_escape_char(s[0]) + attr_escaped(s.drop_first())) + attr_escape_char(c));
        assert(attr_escaped(s) == attr_escape_char(s[0]) + attr_escaped(s.drop_first()));
    }
}

/// Relies on `String::push` of std: appends the given character to the end
/// of the string.
#[verifier::external_body]
fn push_char(s: &mut String, c: char)
    ensures
        final(s)@ == old(s)@ + seq![c],
{
    s.push(c);
}

/// Escapes a string for use as text content: `&`, `<` and `>` become
/// entities, everything else is copied through unchanged.
pub fn escape_text(s: &str) -> (r: String)
    ensures
        r@ == text_escaped(s@),
{
    let n = s.unicode_len();
    let mut r = String::new();
    let mut i: usize = 0;
    while i < n
        invariant
            i <= n,
            n == s@.len(),
            r@ == text_escaped(s@.take(i as int)),
        decreases n - i,
    {
        let c = s.get_char(i);
        if c == '&' {
            r.append("&amp;");
        } else if c == '<' {
            r.append("&lt;");
        } else if c == '>' {
            r.append("&gt;");
        } else {
            push_char(&mut r, c);
        }
        proof {
            reveal_strlit("&amp;");
            reveal_strlit("&lt;");
            reveal_strlit("&gt;");
            lemma_text_escaped_push(s@.take(i as int), s@[i as int]);
            assert(s@.take(i + 1 as int) =~= s@.take(i as int).push(s@[i as int]));
            assert(r@ =~= text_escaped(s@.take(i + 1 as int)));
        }
        i = i + 1;
    }
    proof {
        assert(s@.take(n as int) =~= s@);
    }
    r
}

/// Escapes a string for use inside a double-quoted attribute value: `&`,
/// `"` and `<` become entities, everything else is copied through unchanged.
pub fn escape_attr(s: &str) -> (r: String)
    ensures
        r@ == attr_escaped(s@),
{
    let n = s.unicode_len();
    let mut r = String::new();
    let mut i: usize = 0;
    while i < n
        invariant
            i <= n,
            n == s@.len(),
            r@ == attr_escaped(s@.take(i as int)),
        decreases n - i,
    {
        let c = s.get_char(i);
        if c == '&' {
            r.append("&amp;");
        } else if c == '"' {
            r.append("&quot;");
        } else if c == '<' {
            r.append("&lt;");
        } else {
            push_char(&mut r, c);
        }
        proof {
            reveal_strlit("&amp;");
            reveal_strlit("&quot;");
            reveal_strlit("&lt;");
            lemma_attr_escaped_push(s@.take(i as int), s@[i as int]);
            assert(s@.take(i + 1 as int) =~= s@.take(i as int).push(s@[i as int]));
            assert(r@ =~= attr_escaped(s@.take(i + 1 as int)));
        }
        i = i + 1;
    }
    proof {
        assert(s@.take(n as int) =~= s@);
    }
    r
}

} // verus!
