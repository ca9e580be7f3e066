use vstd::prelude::*;

use crate::attr::{event_name, event_pairs, token_attr, EventKey, ReferrerPolicy};
use crate::convert::{attrs_text, list_attr, literal_attr};
use crate::element::{children_text, node_attrs, node_text, Anchor};

verus! {

/// The occurrences in `attrs` of attributes carrying `name`, in order.
pub open spec fn occurrences(attrs: Seq<(Seq<char>, Seq<char>)>, name: Seq<char>) -> Seq<
    (Seq<char>, Seq<char>),
>
    decreases attrs.len(),
{
    if attrs.len() == 0 {
        Seq::empty()
    } else if attrs[0].0 == name {
        seq![attrs[0]] + occurrences(attrs.drop_first(), name)
    } else {
        occurrences(attrs.drop_first(), name)
    }
}

proof fn lemma_occurrences_concat(
    a: Seq<(Seq<char>, Seq<char>)>,
    b: Seq<(Seq<char>, Seq<char>)>,
    name: Seq<char>,
)
    ensures
        occurrences(a + b, name) == occurrences(a, name) + occurrences(b, name),
    decreases a.len(),
{
    if a.len() == 0 {
        assert(a + b =~= b);
        assert(occurrences(a, name) + occurrences(b, name) =~= occurrences(b, name));
    } else {
        lemma_occurrences_concat(a.drop_first(), b, name);
        assert((a + b).drop_first() =~= a.drop_first() + b);
        assert((a + b)[0] == a[0]);
        if a[0].0 == name {
            assert(occurrences(a + b, name) == seq![a[0]] + (occurrences(a.drop_first(), name)
                + occurrences(b, name)));
            assert(seq![a[0]] + (occurrences(a.drop_first(), name) + occurrences(b, name)) =~= (
            seq![a[0]] + occurrences(a.drop_first(), name)) + occurrences(b, name));
        }
    }
}

/// What a literal conversion leaves under a given name: its own pair when
/// the names agree and the value is present, nothing otherwise.
broadcast proof fn lemma_occ_literal(name: Seq<char>, v: Option<String>, target: Seq<char>)
    ensures
        #[trigger] occurrences(literal_attr(name, v), target) == (if v is Some && name == target {
            literal_attr(name, v)
        } else {
            Seq::<(Seq<char>, Seq<char>)>::empty()
        }),
{
    reveal_with_fuel(occurrences, 3);
    match v {
        Option::None => {
            assert(occurrences(literal_attr(name, v), target) =~= Seq::<
                (Seq<char>, Seq<char>),
            >::empty());
        },
        Option::Some(s) => {
            let a = seq![(name, s@)];
            assert(a.drop_first() =~= Seq::<(Seq<char>, Seq<char>)>::empty());
            if name == target {
                assert(occurrences(a, target) =~= a);
            } else {
                assert(occurrences(a, target) =~= Seq::<(Seq<char>, Seq<char>)>::empty());
            }
        },
    }
}

/// What a joined-list conversion leaves under a given name.
broadcast proof fn lemma_occ_list(
    name: Seq<char>,
    v: Option<Vec<String>>,
    sep: Seq<char>,
    target: Seq<char>,
)
    ensures
        #[trigger] occurrences(list_attr(name, v, sep), target) == (if (v matches Some(items)
            && items@.len() > 0) && name == target {
            list_attr(name, v, sep)
        } else {
            Seq::<(Seq<char>, Seq<char>)>::empty()
        }),
{
    reveal_with_fuel(occurrences, 3);
    match v {
        Option::None => {
            assert(occurrences(list_attr(name, v, sep), target) =~= Seq::<
                (Seq<char>, Seq<char>),
            >::empty());
        },
        Option::Some(items) => {
            let a = list_attr(name, v, sep);
            if items@.len() == 0 {
                assert(occurrences(a, target) =~= Seq::<(Seq<char>, Seq<char>)>::empty());
            } else {
                assert(a.drop_first() =~= Seq::<(Seq<char>, Seq<char>)>::empty());
                if name == target {
                    assert(occurrences(a, target) =~= a);
                } else {
                    assert(occurrences(a, target) =~= Seq::<(Seq<char>, Seq<char>)>::empty());
                }
            }
        },
    }
}

/// What an enumerated-token conversion leaves under a given name.
broadcast proof fn lemma_occ_token(name: Seq<char>, v: Option<ReferrerPolicy>, target: Seq<char>)
    ensures
        #[trigger] occurrences(token_attr(name, v), target) == (if v is Some && name == target {
            token_attr(name, v)
        } else {
            Seq::<(Seq<char>, Seq<char>)>::empty()
        }),
{
    reveal_with_fuel(occurrences, 3);
    match v {
        Option::None => {
            assert(occurrences(token_attr(name, v), target) =~= Seq::<
                (Seq<char>, Seq<char>),
            >::empty());
        },
        Option::Some(p) => {
            let a = token_attr(name, v);
            assert(a.drop_first() =~= Seq::<(Seq<char>, Seq<char>)>::empty());
            if name == target {
                assert(occurrences(a, target) =~= a);
            } else {
                assert(occurrences(a, target) =~= Seq::<(Seq<char>, Seq<char>)>::empty());
            }
        },
    }
}

/// Every event name starts with `on`.
proof fn lemma_event_name_first(k: EventKey)
    ensures
        event_name(k).len() >= 6,
        event_name(k)[0] == 'o',
{
    reveal_strlit("onclick");
    reveal_strlit("onload");
    reveal_strlit("onscroll");
    reveal_strlit("onfocusin");
    reveal_strlit("onfocusout");
    match k {
        EventKey::OnClick => {},
        EventKey::OnLoad => {},
        EventKey::OnScroll => {},
        EventKey::OnFocusIn => {},
        EventKey::OnFocusOut => {},
    }
}

/// Event entries leave nothing under a name that no event carries.
proof fn lemma_occ_events(entries: Seq<(EventKey, Seq<char>)>, target: Seq<char>)
    requires
        forall|k: EventKey| (#[trigger] event_name(k)) != target,
    ensures
        occurrences(event_pairs(entries), target) == Seq::<(Seq<char>, Seq<char>)>::empty(),
    decreases entries.len(),
{
    if entries.len() == 0 {
        assert(event_pairs(entries) =~= Seq::<(Seq<char>, Seq<char>)>::empty());
        assert(occurrences(event_pairs(entries), target) =~= Seq::<
            (Seq<char>, Seq<char>),
        >::empty());
    } else {
        lemma_occ_events(entries.drop_first(), target);
        assert(event_pairs(entries).drop_first() =~= event_pairs(entries.drop_first()));
        assert(event_pairs(entries)[0].0 == event_name(entries[0].0));
        assert(occurrences(event_pairs(entries), target) =~= Seq::<
            (Seq<char>, Seq<char>),
        >::empty());
    }
}

/// Occurrence counting distributes over the element's attribute layout.
proof fn lemma_node_occ_target(n: Anchor, target: Seq<char>)
    ensures
        occurrences(node_attrs(n), target) == occurrences(
            literal_attr("download"@, n.download),
            target,
        ) + occurrences(literal_attr("href"@, n.href), target) + occurrences(
            literal_attr("hreflang"@, n.href_lang),
            target,
        ) + occurrences(literal_attr("id"@, n.core.id), target) + occurrences(
            literal_attr("lang"@, n.core.lang),
            target,
        ) + occurrences(list_attr("class"@, n.styling.class, " "@), target) + occurrences(
            literal_attr("style"@, n.styling.style),
            target,
        ) + occurrences(
            list_attr("requiredFeatures"@, n.cond_proc.required_features, " "@),
            target,
        ) + occurrences(
            list_attr("requiredExtensions"@, n.cond_proc.required_extensions, " "@),
            target,
        ) + occurrences(
            list_attr("systemLanguage"@, n.cond_proc.system_language, ","@),
            target,
        ) + occurrences(event_pairs(n.events.entries_seq()), target) + occurrences(
            list_attr("ping"@, n.ping, " "@),
            target,
        ) + occurrences(token_attr("referrerpolicy"@, n.referrer_policy), target),
{
    let s1 = literal_attr("download"@, n.download);
    let s2 = literal_attr("href"@, n.href);
    let s3 = literal_attr("hreflang"@, n.href_lang);
    let s4 = literal_attr("id"@, n.core.id);
    let s5 = literal_attr("lang"@, n.core.lang);
    let s6 = list_attr("class"@, n.styling.class, " "@);
    let s7 = literal_attr("style"@, n.styling.style);
    let s8 = list_attr("requiredFeatures"@, n.cond_proc.required_features, " "@);
    let s9 = list_attr("requiredExtensions"@, n.cond_proc.required_extensions, " "@);
    let s10 = list_attr("systemLanguage"@, n.cond_proc.system_language, ","@);
    let s11 = event_pairs(n.events.entries_seq());
    let s12 = list_attr("ping"@, n.ping, " "@);
    let s13 = token_attr("referrerpolicy"@, n.referrer_policy);
    assert(node_attrs(n) =~= s1 + s2 + s3 + s4 + s5 + s6 + s7 + s8 + s9 + s10 + s11 + s12 + s13);
    lemma_occurrences_concat(s1 + s2 + s3 + s4 + s5 + s6 + s7 + s8 + s9 + s10 + s11 + s12, s13, target);
    lemma_occurrences_concat(s1 + s2 + s3 + s4 + s5 + s6 + s7 + s8 + s9 + s10 + s11, s12, target);
    lemma_occurrences_concat(s1 + s2 + s3 + s4 + s5 + s6 + s7 + s8 + s9 + s10, s11, target);
    lemma_occurrences_concat(s1 + s2 + s3 + s4 + s5 + s6 + s7 + s8 + s9, s10, target);
    lemma_occurrences_concat(s1 + s2 + s3 + s4 + s5 + s6 + s7 + s8, s9, target);
    lemma_occurrences_concat(s1 + s2 + s3 + s4 + s5 + s6 + s7, s8, target);
    lemma_occurrences_concat(s1 + s2 + s3 + s4 + s5 + s6, s7, target);
    lemma_occurrences_concat(s1 + s2 + s3 + s4 + s5, s6, target);
    lemma_occurrences_concat(s1 + s2 + s3 + s4, s5, target);
    lemma_occurrences_concat(s1 + s2 + s3, s4, target);
    lemma_occurrences_concat(s1 + s2, s3, target);
    lemma_occurrences_concat(s1, s2, target);
}

/// Law (absence omission and presence fidelity): for every optional
/// attribute of the element, the occurrences of its name in the resolved
/// attribute list are exactly what its declared conversion contributes —
/// nothing when the value is absent, and the one converted name/text pair
/// when it is present.
pub proof fn lemma_attribute_occurrences(n: Anchor)
    ensures
        occurrences(node_attrs(n), "download"@) == literal_attr("download"@, n.download),
        occurrences(node_attrs(n), "href"@) == literal_attr("href"@, n.href),
        occurrences(node_attrs(n), "hreflang"@) == literal_attr("hreflang"@, n.href_lang),
        occurrences(node_attrs(n), "id"@) == literal_attr("id"@, n.core.id),
        occurrences(node_attrs(n), "lang"@) == literal_attr("lang"@, n.core.lang),
        occurrences(node_attrs(n), "class"@) == list_attr("class"@, n.styling.class, " "@),
        occurrences(node_attrs(n), "style"@) == literal_attr("style"@, n.styling.style),
        occurrences(node_attrs(n), "requiredFeatures"@) == list_attr(
            "requiredFeatures"@,
            n.cond_proc.required_features,
            " "@,
        ),
        occurrences(node_attrs(n), "requiredExtensions"@) == list_attr(
            "requiredExtensions"@,
            n.cond_proc.required_extensions,
            " "@,
        ),
        occurrences(node_attrs(n), "systemLanguage"@) == list_attr(
            "systemLanguage"@,
            n.cond_proc.system_language,
            ","@,
        ),
        occurrences(node_attrs(n), "ping"@) == list_attr("ping"@, n.ping, " "@),
        occurrences(node_attrs(n), "referrerpolicy"@) == token_attr(
            "referrerpolicy"@,
            n.referrer_policy,
        ),
{
    broadcast use lemma_occ_literal;
    broadcast use lemma_occ_list;
    broadcast use lemma_occ_token;

    reveal_strlit("download");
    reveal_strlit("href");
    reveal_strlit("hreflang");
    reveal_strlit("id");
    reveal_strlit("lang");
    reveal_strlit("class");
    reveal_strlit("style");
    reveal_strlit("requiredFeatures");
    reveal_strlit("requiredExtensions");
    reveal_strlit("systemLanguage");
    reveal_strlit("ping");
    reveal_strlit("referrerpolicy");

    assert("download"@.len() == 8 && "download"@[0] == 'd');
    assert("href"@.len() == 4 && "href"@[0] == 'h');
    assert("hreflang"@.len() == 8 && "hreflang"@[0] == 'h' && "hreflang"@[4] == 'l');
    assert("id"@.len() == 2 && "id"@[0] == 'i');
    assert("lang"@.len() == 4 && "lang"@[0] == 'l');
    assert("class"@.len() == 5 && "class"@[0] == 'c');
    assert("style"@.len() == 5 && "style"@[0] == 's');
    assert("requiredFeatures"@.len() == 16 && "requiredFeatures"@[0] == 'r');
    assert("requiredExtensions"@.len() == 18 && "requiredExtensions"@[0] == 'r');
    assert("systemLanguage"@.len() == 14 && "systemLanguage"@[0] == 's');
    assert("ping"@.len() == 4 && "ping"@[0] == 'p');
    assert("referrerpolicy"@.len() == 14 && "referrerpolicy"@[0] == 'r');

    assert forall|k: EventKey| (#[trigger] event_name(k)) != ("download"@) by {
        lemma_event_name_first(k);
    }
    lemma_node_occ_target(n, "download"@);
    lemma_occ_events(n.events.entries_seq(), "download"@);
    assert(occurrences(node_attrs(n), "download"@) =~= literal_attr("download"@, n.download));

    assert forall|k: EventKey| (#[trigger] event_name(k)) != ("href"@) by {
        lemma_event_name_first(k);
    }
    lemma_node_occ_target(n, "href"@);
    lemma_occ_events(n.events.entries_seq(), "href"@);
    assert(occurrences(node_attrs(n), "href"@) =~= literal_attr("href"@, n.href));

    assert forall|k: EventKey| (#[trigger] event_name(k)) != ("hreflang"@) by {
        lemma_event_name_first(k);
    }
    lemma_node_occ_target(n, "hreflang"@);
    lemma_occ_events(n.events.entries_seq(), "hreflang"@);
    assert(occurrences(node_attrs(n), "hreflang"@) =~= literal_attr("hreflang"@, n.href_lang));

    assert forall|k: EventKey| (#[trigger] event_name(k)) != ("id"@) by {
        lemma_event_name_first(k);
    }
    lemma_node_occ_target(n, "id"@);
    lemma_occ_events(n.events.entries_seq(), "id"@);
    assert(occurrences(node_attrs(n), "id"@) =~= literal_attr("id"@, n.core.id));

    assert forall|k: EventKey| (#[trigger] event_name(k)) != ("lang"@) by {
        lemma_event_name_first(k);
    }
    lemma_node_occ_target(n, "lang"@);
    lemma_occ_events(n.events.entries_seq(), "lang"@);
    assert(occurrences(node_attrs(n), "lang"@) =~= literal_attr("lang"@, n.core.lang));

    assert forall|k: EventKey| (#[trigger] event_name(k)) != ("class"@) by {
        lemma_event_name_first(k);
    }
    lemma_node_occ_target(n, "class"@);
    lemma_occ_events(n.events.entries_seq(), "class"@);
    assert(occurrences(node_attrs(n), "class"@) =~= list_attr("class"@, n.styling.class, " "@));

    assert forall|k: EventKey| (#[trigger] event_name(k)) != ("style"@) by {
        lemma_event_name_first(k);
    }
    lemma_node_occ_target(n, "style"@);
    lemma_occ_events(n.events.entries_seq(), "style"@);
    assert(occurrences(node_attrs(n), "style"@) =~= literal_attr("style"@, n.styling.style));

    assert forall|k: EventKey| (#[trigger] event_name(k)) != ("requiredFeatures"@) by {
        lemma_event_name_first(k);
    }
    lemma_node_occ_target(n, "requiredFeatures"@);
    lemma_occ_events(n.events.entries_seq(), "requiredFeatures"@);
    assert(occurrences(node_attrs(n), "requiredFeatures"@) =~= list_attr(
        "requiredFeatures"@,
        n.cond_proc.required_features,
        " "@,
    ));

    assert forall|k: EventKey| (#[trigger] event_name(k)) != ("requiredExtensions"@) by {
        lemma_event_name_first(k);
    }
    lemma_node_occ_target(n, "requiredExtensions"@);
    lemma_occ_events(n.events.entries_seq(), "requiredExtensions"@);
    assert(occurrences(node_attrs(n), "requiredExtensions"@) =~= list_attr(
        "requiredExtensions"@,
        n.cond_proc.required_extensions,
        " "@,
    ));

    assert forall|k: EventKey| (#[trigger] event_name(k)) != ("systemLanguage"@) by {
        lemma_event_name_first(k);
    }
    lemma_node_occ_target(n, "systemLanguage"@);
    lemma_occ_events(n.events.entries_seq(), "systemLanguage"@);
    assert(occurrences(node_attrs(n), "systemLanguage"@) =~= list_attr(
        "systemLanguage"@,
        n.cond_proc.system_language,
        ","@,
    ));

    assert forall|k: EventKey| (#[trigger] event_name(k)) != ("ping"@) by {
        lemma_event_name_first(k);
    }
    lemma_node_occ_target(n, "ping"@);
    lemma_occ_events(n.events.entries_seq(), "ping"@);
    assert(occurrences(node_attrs(n), "ping"@) =~= list_attr("ping"@, n.ping, " "@));

    assert forall|k: EventKey| (#[trigger] event_name(k)) != ("referrerpolicy"@) by {
        lemma_event_name_first(k);
    }
    lemma_node_occ_target(n, "referrerpolicy"@);
    lemma_occ_events(n.events.entries_seq(), "referrerpolicy"@);
    assert(occurrences(node_attrs(n), "referrerpolicy"@) =~= token_attr(
        "referrerpolicy"@,
        n.referrer_policy,
    ));
}

/// Law (absence omission): an optional attribute set to absent leaves no
/// occurrence of its name in the element's resolved attribute list.
pub proof fn lemma_absent_attribute_omitted(n: Anchor)
    ensures
        n.download is None ==> occurrences(node_attrs(n), "download"@).len() == 0,
        n.href is None ==> occurrences(node_attrs(n), "href"@).len() == 0,
        n.href_lang is None ==> occurrences(node_attrs(n), "hreflang"@).len() == 0,
        n.core.id is None ==> occurrences(node_attrs(n), "id"@).len() == 0,
        n.core.lang is None ==> occurrences(node_attrs(n), "lang"@).len() == 0,
        n.styling.class is None ==> occurrences(node_attrs(n), "class"@).len() == 0,
        n.styling.style is None ==> occurrences(node_attrs(n), "style"@).len() == 0,
        n.cond_proc.required_features is None ==> occurrences(
            node_attrs(n),
            "requiredFeatures"@,
        ).len() == 0,
        n.cond_proc.required_extensions is None ==> occurrences(
            node_attrs(n),
            "requiredExtensions"@,
        ).len() == 0,
        n.cond_proc.system_language is None ==> occurrences(
            node_attrs(n),
            "systemLanguage"@,
        ).len() == 0,
        n.ping is None ==> occurrences(node_attrs(n), "ping"@).len() == 0,
        n.referrer_policy is None ==> occurrences(node_attrs(n), "referrerpolicy"@).len() == 0,
{
    lemma_attribute_occurrences(n);
}

/// Law (presence fidelity): an optional attribute set to a present value
/// leaves exactly one occurrence of its name, carrying the converted text.
pub proof fn lemma_present_attribute_once(n: Anchor)
    ensures
        n.download matches Some(s) ==> occurrences(node_attrs(n), "download"@) == seq![
            ("download"@, s@),
        ],
        n.href matches Some(s) ==> occurrences(node_attrs(n), "href"@) == seq![("href"@, s@)],
        n.href_lang matches Some(s) ==> occurrences(node_attrs(n), "hreflang"@) == seq![
            ("hreflang"@, s@),
        ],
        n.core.id matches Some(s) ==> occurrences(node_attrs(n), "id"@) == seq![("id"@, s@)],
        n.core.lang matches Some(s) ==> occurrences(node_attrs(n), "lang"@) == seq![("lang"@, s@)],
        n.styling.style matches Some(s) ==> occurrences(node_attrs(n), "style"@) == seq![
            ("style"@, s@),
        ],
        n.referrer_policy matches Some(p) ==> occurrences(node_attrs(n), "referrerpolicy"@)
            == seq![("referrerpolicy"@, crate::attr::referrer_policy_name(p))],
{
    lemma_attribute_occurrences(n);
}

/// Law (self-close against explicit empty): with the same resolved
/// attributes, a node with no children list and a node with an empty one
/// render distinct texts — a self-closed tag against an open/close pair.
pub proof fn lemma_self_close_distinct(n: Anchor, m: Anchor)
    requires
        n.children is None,
        m.children matches Some(cs) && cs@.len() == 0,
        node_attrs(n) == node_attrs(m),
    ensures
        node_text(n) != node_text(m),
{
    reveal_strlit("a");
    assert(node_text(n).len() == 4 + attrs_text(node_attrs(n)).len());
    match m.children {
        Option::Some(cs) => {
            assert(children_text(cs@) == Seq::<char>::empty());
            assert(node_text(m).len() == 7 + attrs_text(node_attrs(m)).len());
        },
        Option::None => {},
    }
}

/// Law (deterministic ordering): the rendered text is a function of the
/// node alone, so two serializations of the same unmutated node are
/// byte-identical.
pub proof fn lemma_render_deterministic(n: Anchor, first: Seq<char>, second: Seq<char>)
    requires
        first == node_text(n),
        second == node_text(n),
    ensures
        first == second,
{
}

} // verus!
