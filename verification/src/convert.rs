use vstd::prelude::*;

use crate::escape::attr_escaped;

verus! {

/// The attribute pairs contributed by one optional literal value: an absent
/// value contributes nothing, a present one exactly the pair of the given
/// name and the value's own text.
pub open spec fn literal_attr(name: Seq<char>, v: Option<String>) -> Seq<(Seq<char>, Seq<char>)> {
    match v {
        Option::None => Seq::empty(),
        Option::Some(s) => seq![(name, s@)],
    }
}

/// The texts of a list's entries joined by `sep`, with empty entries
/// skipped.
pub open spec fn joined(vs: Seq<Seq<char>>, sep: Seq<char>) -> Seq<char>
    decreases vs.len(),
{
    if vs.len() == 0 {
        Seq::empty()
    } else {
        let rest = joined(vs.drop_first(), sep);
        if vs[0].len() == 0 {
            rest
        } else if rest.len() == 0 {
            vs[0]
        } else {
            vs[0] + sep + rest
        }
    }
}

/// The views of a vector of strings.
pub open spec fn string_views(items: Seq<String>) -> Seq<Seq<char>> {
    items.map_values(|s: String| s@)
}

/// The attribute pairs contributed by one optional multi-valued attribute:
/// an absent or empty list contributes nothing, a non-empty one exactly the
/// pair of the given name and the entries' texts joined by `sep`.
pub open spec fn list_attr(name: Seq<char>, v: Option<Vec<String>>, sep: Seq<char>) -> Seq<
    (Seq<char>, Seq<char>),
> {
    match v {
        Option::None => Seq::empty(),
        Option::Some(items) => if items@.len() == 0 {
            Seq::empty()
        } else {
            seq![(name, joined(string_views(items@), sep))]
        },
    }
}

/// The attribute pairs of a converted optional value, seen as a sequence of
/// zero or one name/text pairs.
pub open spec fn opt_pair_seq(r: Option<(String, String)>) -> Seq<(Seq<char>, Seq<char>)> {
    match r {
        Option::None => Seq::empty(),
        Option::Some(p) => seq![(p.0@, p.1@)],
    }
}

/// The tag text of one attribute pair as it stands inside a start tag: a
/// leading space, the name, `="`, the escaped value and the closing quote.
pub open spec fn attr_text(name: Seq<char>, value: Seq<char>) -> Seq<char> {
    seq![' '] + name + seq!['=', '"'] + attr_escaped(value) + seq!['"']
}

/// The tag text of a whole attribute list, in order.
pub open spec fn attrs_text(attrs: Seq<(Seq<char>, Seq<char>)>) -> Seq<char>
    decreases attrs.len(),
{
    if attrs.len() == 0 {
        Seq::empty()
    } else {
        attr_text(attrs[0].0, attrs[0].1) + attrs_text(attrs.drop_first())
    }
}

pub proof fn lemma_attrs_text_push(attrs: Seq<(Seq<char>, Seq<char>)>, p: (Seq<char>, Seq<char>))
    ensures
        attrs_text(attrs.push(p)) == attrs_text(attrs) + attr_text(p.0, p.1),
    decreases attrs.len(),
{
    if attrs.len() == 0 {
        let e = Seq::<(Seq<char>, Seq<char>)>::empty();
        assert(attrs.push(p).drop_first() =~= e);
        assert(attrs.push(p)[0] == p);
        assert(attrs_text(attrs.push(p)) == attr_text(p.0, p.1) + attrs_text(e));
        assert(attr_text(p.0, p.1) + Seq::<char>::empty() =~= attrs_text(attrs) + attr_text(
            p.0,
            p.1,
        ));
    } else {
        lemma_attrs_text_push(attrs.drop_first(), p);
        assert(attrs.push(p).drop_first() =~= attrs.drop_first().push(p));
        assert(attrs.push(p)[0] == attrs[0]);
        assert(attrs_text(attrs.push(p)) == attr_text(attrs[0].0, attrs[0].1) + (attrs_text(
            attrs.drop_first(),
        ) + attr_text(p.0, p.1)));
        assert(attr_text(attrs[0].0, attrs[0].1) + (attrs_text(attrs.drop_first()) + attr_text(
            p.0,
            p.1,
        )) =~= (attr_text(attrs[0].0, attrs[0].1) + attrs_text(attrs.drop_first())) + attr_text(
            p.0,
            p.1,
        ));
    }
}

pub proof fn lemma_attrs_text_concat(a: Seq<(Seq<char>, Seq<char>)>, b: Seq<(Seq<char>, Seq<char>)>)
    ensures
        attrs_text(a + b) == attrs_text(a) + attrs_text(b),
    decreases a.len(),
{
    if a.len() == 0 {
        assert(a + b =~= b);
        assert(attrs_text(a) + attrs_text(b) =~= attrs_text(b));
    } else {
        lemma_attrs_text_concat(a.drop_first(), b);
        assert((a + b).drop_first() =~= a.drop_first() + b);
        assert((a + b)[0] == a[0]);
        assert(attrs_text(a + b) == attr_text(a[0].0, a[0].1) + (attrs_text(a.drop_first())
            + attrs_text(b)));
        assert(attr_text(a[0].0, a[0].1) + (attrs_text(a.drop_first()) + attrs_text(b)) =~= (
        attr_text(a[0].0, a[0].1) + attrs_text(a.drop_first())) + attrs_text(b));
    }
}

pub proof fn lemma_prefix_refl(s: Seq<char>)
    ensures
        s.is_prefix_of(s),
{
    assert(s =~= s.subrange(0, s.len() as int));
}

pub proof fn lemma_prefix_extend(p: Seq<char>, c: Seq<char>, rest: Seq<char>)
    requires
        p.is_prefix_of(c),
    ensures
        p.is_prefix_of(c + rest),
{
    assert(p =~= (c + rest).subrange(0, p.len() as int));
}

pub proof fn lemma_prefix_left(a: Seq<char>, p: Seq<char>, c: Seq<char>)
    requires
        p.is_prefix_of(c),
    ensures
        (a + p).is_prefix_of(a + c),
{
    assert(a + p =~= (a + c).subrange(0, (a + p).len() as int));
}

/// Joins the entries of `items` with `sep`, starting at index `i`.
fn join_from(items: &Vec<String>, i: usize, sep: &str) -> (r: String)
    requires
        i <= items@.len(),
    ensures
        r@ == joined(string_views(items@).skip(i as int), sep@),
    decreases items@.len() - i,
{
    if i == items.len() {
        let r = String::new();
        proof {
            assert(string_views(items@).skip(i as int) =~= Seq::<Seq<char>>::empty());
        }
        r
    } else {
        let head: &String = &items[i];
        let rest = join_from(items, i + 1, sep);
        proof {
            let m = string_views(items@);
            assert(m.skip(i as int).drop_first() =~= m.skip(i + 1 as int));
            assert(m.skip(i as int)[0] == m[i as int]);
            assert(m[i as int] == head@);
        }
        if head.unicode_len() == 0 {
            rest
        } else if rest.unicode_len() == 0 {
            head.clone()
        } else {
            let mut r = head.clone();
            r.append(sep);
            r.append(rest.as_str());
            proof {
                let m = string_views(items@);
                assert(r@ =~= joined(m.skip(i as int), sep@));
            }
            r
        }
    }
}

/// Literal conversion: an absent value yields no attribute, a present one
/// yields the name paired with the value's text, verbatim.
pub fn convert_literal(name: &str, value: &Option<String>) -> (r: Option<(String, String)>)
    ensures
        opt_pair_seq(r) == literal_attr(name@, *value),
{
    match value {
        None => None,
        Some(s) => {
            let r = Some((name.to_owned(), s.clone()));
            proof {
                assert(opt_pair_seq(r) =~= literal_attr(name@, *value));
            }
            r
        },
    }
}

/// Joined-list conversion: an absent or empty list yields no attribute, a
/// non-empty one yields the name paired with the entries' texts joined by
/// `sep`, empty entries skipped.
pub fn convert_joined(name: &str, values: &Option<Vec<String>>, sep: &str) -> (r: Option<
    (String, String),
>)
    ensures
        opt_pair_seq(r) == list_attr(name@, *values, sep@),
{
    match values {
        None => None,
        Some(items) => {
            if items.len() == 0 {
                None
            } else {
                let joined_text = join_from(items, 0, sep);
                let r = Some((name.to_owned(), joined_text));
                proof {
                    assert(string_views(items@).skip(0) =~= string_views(items@));
                    assert(opt_pair_seq(r) =~= list_attr(name@, *values, sep@));
                }
                r
            }
        },
    }
}

} // verus!
