use vstd::prelude::*;

use crate::convert::{
    attr_text, attrs_text, convert_joined, convert_literal, lemma_attrs_text_concat,
    lemma_attrs_text_push, lemma_prefix_extend, lemma_prefix_left, lemma_prefix_refl, list_attr,
    literal_attr, opt_pair_seq,
};
use crate::error::Error;
use crate::escape::escape_attr;
use crate::sink::Sink;

verus! {

/// An open start tag being assembled: the ordered list of name/text pairs
/// that will stand inside it. Values are kept unescaped here; escaping for
/// the attribute context happens when the tag is emitted.
pub struct TagBuilder {
    attrs: Vec<(String, String)>,
}

impl TagBuilder {
    /// The accumulated name/text pairs, in the order they were appended.
    pub closed spec fn pairs(&self) -> Seq<(Seq<char>, Seq<char>)> {
        self.attrs@.map_values(|p: (String, String)| (p.0@, p.1@))
    }

    pub fn new() -> (tb: TagBuilder)
        ensures
            tb.pairs() == Seq::<(Seq<char>, Seq<char>)>::empty(),
    {
        let tb = TagBuilder { attrs: Vec::new() };
        proof {
            assert(tb.pairs() =~= Seq::<(Seq<char>, Seq<char>)>::empty());
        }
        tb
    }

    /// Appends one attribute occurrence as given.
    pub fn push_pair(&mut self, name: String, value: String)
        ensures
            final(self).pairs() == old(self).pairs().push((name@, value@)),
    {
        let ghost n = name@;
        let ghost v = value@;
        self.attrs.push((name, value));
        proof {
            assert(final(self).pairs() =~= old(self).pairs().push((n, v)));
        }
    }

    /// Appends the outcome of a conversion: nothing for an absent value, the
    /// produced pair for a present one.
    pub fn push_opt(&mut self, converted: Option<(String, String)>)
        ensures
            final(self).pairs() == old(self).pairs() + opt_pair_seq(converted),
    {
        let ghost c = converted;
        match converted {
            None => {
                proof {
                    assert(final(self).pairs() =~= old(self).pairs() + opt_pair_seq(c));
                }
            },
            Some(p) => {
                self.push_pair(p.0, p.1);
                proof {
                    assert(final(self).pairs() =~= old(self).pairs() + opt_pair_seq(c));
                }
            },
        }
    }

    /// Appends one optional literal attribute.
    pub fn push_literal(&mut self, name: &str, value: &Option<String>)
        ensures
            final(self).pairs() == old(self).pairs() + literal_attr(name@, *value),
    {
        let converted = convert_literal(name, value);
        self.push_opt(converted);
    }

    /// Appends one optional multi-valued attribute, joined by `sep`.
    pub fn push_joined(&mut self, name: &str, values: &Option<Vec<String>>, sep: &str)
        ensures
            final(self).pairs() == old(self).pairs() + list_attr(name@, *values, sep@),
    {
        let converted = convert_joined(name, values, sep);
        self.push_opt(converted);
    }
}

/// An enumerated referrer-policy token; its canonical spelling is the
/// attribute text it converts to.
#[derive(Clone, Copy, Debug, PartialEq, Eq, Structural)]
pub enum ReferrerPolicy {
    NoReferrer,
    NoReferrerWhenDowngrade,
    Origin,
    OriginWhenCrossOrigin,
    SameOrigin,
    StrictOrigin,
    StrictOriginWhenCrossOrigin,
    UnsafeUrl,
}

/// The canonical spelling of a referrer-policy token.
pub open spec fn referrer_policy_name(p: ReferrerPolicy) -> Seq<char> {
    match p {
        ReferrerPolicy::NoReferrer => "no-referrer"@,
        ReferrerPolicy::NoReferrerWhenDowngrade => "no-referrer-when-downgrade"@,
        ReferrerPolicy::Origin => "origin"@,
        ReferrerPolicy::OriginWhenCrossOrigin => "origin-when-cross-origin"@,
        ReferrerPolicy::SameOrigin => "same-origin"@,
        ReferrerPolicy::StrictOrigin => "strict-origin"@,
        ReferrerPolicy::StrictOriginWhenCrossOrigin => "strict-origin-when-cross-origin"@,
        ReferrerPolicy::UnsafeUrl => "unsafe-url"@,
    }
}

impl ReferrerPolicy {
    /// The token's canonical text form.
    pub fn as_text(&self) -> (r: &'static str)
        ensures
            r@ == referrer_policy_name(*self),
    {
        match self {
            ReferrerPolicy::NoReferrer => "no-referrer",
            ReferrerPolicy::NoReferrerWhenDowngrade => "no-referrer-when-downgrade",
            ReferrerPolicy::Origin => "origin",
            ReferrerPolicy::OriginWhenCrossOrigin => "origin-when-cross-origin",
            ReferrerPolicy::SameOrigin => "same-origin",
            ReferrerPolicy::StrictOrigin => "strict-origin",
            ReferrerPolicy::StrictOriginWhenCrossOrigin => "strict-origin-when-cross-origin",
            ReferrerPolicy::UnsafeUrl => "unsafe-url",
        }
    }
}

/// The attribute pairs contributed by one optional enumerated token: its
/// canonical spelling under the given name.
pub open spec fn token_attr(name: Seq<char>, v: Option<ReferrerPolicy>) -> Seq<
    (Seq<char>, Seq<char>),
> {
    match v {
        Option::None => Seq::empty(),
        Option::Some(p) => seq![(name, referrer_policy_name(p))],
    }
}

/// Enumerated-token conversion: an absent token yields no attribute, a
/// present one yields the name paired with the token's canonical spelling.
pub fn convert_token(name: &str, value: &Option<ReferrerPolicy>) -> (r: Option<(String, String)>)
    ensures
        opt_pair_seq(r) == token_attr(name@, *value),
{
    match value {
        None => None,
        Some(p) => {
            let r = Some((name.to_owned(), p.as_text().to_owned()));
            proof {
                assert(opt_pair_seq(r) =~= token_attr(name@, *value));
            }
            r
        },
    }
}

impl TagBuilder {
    /// Appends one optional enumerated-token attribute, rendered by its
    /// canonical spelling.
    pub fn push_token(&mut self, name: &str, value: &Option<ReferrerPolicy>)
        ensures
            final(self).pairs() == old(self).pairs() + token_attr(name@, *value),
    {
        let converted = convert_token(name, value);
        self.push_opt(converted);
    }
}

impl TagBuilder {
    /// Emits the accumulated attributes in order, one sink append per
    /// attribute, each as a leading space, the name, and the value escaped
    /// for the double-quoted attribute context.
    ///
    /// The call succeeds exactly when the sink accepts one append per
    /// attribute; on failure the sink holds precisely the attributes its
    /// budget covered.
    #[verifier::loop_isolation(false)]
    pub fn emit(&self, out: &mut Sink) -> (r: Result<(), Error>)
        ensures
            r is Ok ==> final(out).text() == old(out).text() + attrs_text(self.pairs()),
            r is Ok <==> (old(out).budget() is None || (old(out).budget() matches Some(b) && b
                >= self.pairs().len())),
            old(out).budget() is None ==> final(out).budget() is None,
            old(out).budget() matches Some(b) ==> (b >= self.pairs().len() ==> final(out).budget()
                == Some((b - self.pairs().len()) as u64)),
            r is Err ==> r == Err::<(), Error>(Error::SinkWriteFailure) && final(out).budget()
                == Some(0u64),
            old(out).budget() matches Some(b) ==> (b < self.pairs().len() ==> final(out).text()
                == old(out).text() + attrs_text(self.pairs().take(b as int))),
            final(out).text().is_prefix_of(old(out).text() + attrs_text(self.pairs())),
            old(out).text().is_prefix_of(final(out).text()),
            final(out).infallible() == old(out).infallible(),
    {
        let n = self.attrs.len();
        let mut i: usize = 0;
        while i < n
            invariant
                i <= n,
                out.text() == old(out).text() + attrs_text(self.pairs().take(i as int)),
                out.infallible() == old(out).infallible(),
                old(out).budget() is None ==> out.budget() is None,
                old(out).budget() matches Some(b) ==> i <= b && out.budget() == Some(
                    (b - i) as u64,
                ),
            decreases n - i,
        {
            let name: &String = &self.attrs[i].0;
            let value: &String = &self.attrs[i].1;
            let mut piece = " ".to_owned();
            piece.append(name.as_str());
            piece.append("=\"");
            let escaped = escape_attr(value.as_str());
            piece.append(escaped.as_str());
            piece.append("\"");
            proof {
                reveal_strlit(" ");
                reveal_strlit("=\"");
                reveal_strlit("\"");
                assert(self.pairs()[i as int] == (name@, value@));
                assert(piece@ =~= attr_text(name@, value@));
            }
            match out.append(piece.as_str()) {
                Ok(()) => {},
                Err(e) => {
                    proof {
                        assert(self.pairs() =~= self.pairs().take(i as int) + self.pairs().skip(
                            i as int,
                        ));
                        lemma_attrs_text_concat(
                            self.pairs().take(i as int),
                            self.pairs().skip(i as int),
                        );
                        lemma_prefix_refl(attrs_text(self.pairs().take(i as int)));
                        lemma_prefix_extend(
                            attrs_text(self.pairs().take(i as int)),
                            attrs_text(self.pairs().take(i as int)),
                            attrs_text(self.pairs().skip(i as int)),
                        );
                        lemma_prefix_left(
                            old(out).text(),
                            attrs_text(self.pairs().take(i as int)),
                            attrs_text(self.pairs()),
                        );
                        lemma_prefix_refl(old(out).text());
                        lemma_prefix_extend(
                            old(out).text(),
                            old(out).text(),
                            attrs_text(self.pairs().take(i as int)),
                        );
                    }
                    return Err(e);
                },
            }
            proof {
                lemma_attrs_text_push(self.pairs().take(i as int), self.pairs()[i as int]);
                assert(self.pairs().take(i + 1 as int) =~= self.pairs().take(i as int).push(
                    self.pairs()[i as int],
                ));
                assert(out.text() =~= old(out).text() + attrs_text(
                    self.pairs().take(i + 1 as int),
                ));
            }
            i = i + 1;
        }
        proof {
            assert(self.pairs().take(n as int) =~= self.pairs());
            lemma_prefix_refl(out.text());
            lemma_prefix_refl(old(out).text());
            lemma_prefix_extend(old(out).text(), old(out).text(), attrs_text(self.pairs()));
        }
        Ok(())
    }
}

/// The identity attribute group: attributes every element carries.
pub struct CoreAttr {
    pub id: Option<String>,
    pub lang: Option<String>,
}

impl CoreAttr {
    /// The attribute pairs this group contributes, in declared field order.
    pub open spec fn attr_pairs(self) -> Seq<(Seq<char>, Seq<char>)> {
        literal_attr("id"@, self.id) + literal_attr("lang"@, self.lang)
    }

    /// Appends this group's attributes to the tag being built, in declared
    /// field order. The group invents no errors: it fails only if the
    /// builder does, and this builder never fails.
    pub fn write_in(&self, tb: &mut TagBuilder) -> (r: Result<(), Error>)
        ensures
            r is Ok,
            final(tb).pairs() == old(tb).pairs() + self.attr_pairs(),
    {
        tb.push_literal("id", &self.id);
        tb.push_literal("lang", &self.lang);
        proof {
            assert(tb.pairs() =~= old(tb).pairs() + self.attr_pairs());
        }
        Ok(())
    }
}

impl Default for CoreAttr {
    fn default() -> (d: CoreAttr)
        ensures
            d.id is None,
            d.lang is None,
    {
        CoreAttr { id: None, lang: None }
    }
}

/// The styling attribute group: class list and inline style.
pub struct StylingAttr {
    pub class: Option<Vec<String>>,
    pub style: Option<String>,
}

impl StylingAttr {
    /// The attribute pairs this group contributes, in declared field order.
    pub open spec fn attr_pairs(self) -> Seq<(Seq<char>, Seq<char>)> {
        list_attr("class"@, self.class, " "@) + literal_attr("style"@, self.style)
    }

    /// Appends this group's attributes to the tag being built, in declared
    /// field order. The group invents no errors: it fails only if the
    /// builder does, and this builder never fails.
    pub fn write_in(&self, tb: &mut TagBuilder) -> (r: Result<(), Error>)
        ensures
            r is Ok,
            final(tb).pairs() == old(tb).pairs() + self.attr_pairs(),
    {
        tb.push_joined("class", &self.class, " ");
        tb.push_literal("style", &self.style);
        proof {
            assert(tb.pairs() =~= old(tb).pairs() + self.attr_pairs());
        }
        Ok(())
    }
}

impl Default for StylingAttr {
    fn default() -> (d: StylingAttr)
        ensures
            d.class is None,
            d.style is None,
    {
        StylingAttr { class: None, style: None }
    }
}

/// The conditional-processing attribute group: feature and language tests.
pub struct CondProcAttr {
    pub required_features: Option<Vec<String>>,
    pub required_extensions: Option<Vec<String>>,
    pub system_language: Option<Vec<String>>,
}

impl CondProcAttr {
    /// The attribute pairs this group contributes, in declared field order.
    pub open spec fn attr_pairs(self) -> Seq<(Seq<char>, Seq<char>)> {
        list_attr("requiredFeatures"@, self.required_features, " "@) + list_attr(
            "requiredExtensions"@,
            self.required_extensions,
            " "@,
        ) + list_attr("systemLanguage"@, self.system_language, ","@)
    }

    /// Appends this group's attributes to the tag being built, in declared
    /// field order. Unlike the other groups this write surface is not
    /// fallible at all: conversion is total and the builder cannot refuse a
    /// pair, so the method deliberately returns nothing.
    pub fn write_in(&self, tb: &mut TagBuilder)
        ensures
            final(tb).pairs() == old(tb).pairs() + self.attr_pairs(),
    {
        tb.push_joined("requiredFeatures", &self.required_features, " ");
        tb.push_joined("requiredExtensions", &self.required_extensions, " ");
        tb.push_joined("systemLanguage", &self.system_language, ",");
        proof {
            assert(tb.pairs() =~= old(tb).pairs() + self.attr_pairs());
        }
    }
}

impl Default for CondProcAttr {
    fn default() -> (d: CondProcAttr)
        ensures
            d.required_features is None,
            d.required_extensions is None,
            d.system_language is None,
    {
        CondProcAttr { required_features: None, required_extensions: None, system_language: None }
    }
}

/// An enumerated event name; the key of an event-handler entry.
#[derive(Clone, Copy, Debug, PartialEq, Eq, Structural)]
pub enum EventKey {
    OnClick,
    OnLoad,
    OnScroll,
    OnFocusIn,
    OnFocusOut,
}

/// The attribute spelling of an event name.
pub open spec fn event_name(k: EventKey) -> Seq<char> {
    match k {
        EventKey::OnClick => "onclick"@,
        EventKey::OnLoad => "onload"@,
        EventKey::OnScroll => "onscroll"@,
        EventKey::OnFocusIn => "onfocusin"@,
        EventKey::OnFocusOut => "onfocusout"@,
    }
}

impl EventKey {
    /// The event name as attribute text.
    pub fn as_text(&self) -> (r: &'static str)
        ensures
            r@ == event_name(*self),
    {
        match self {
            EventKey::OnClick => "onclick",
            EventKey::OnLoad => "onload",
            EventKey::OnScroll => "onscroll",
            EventKey::OnFocusIn => "onfocusin",
            EventKey::OnFocusOut => "onfocusout",
        }
    }
}

/// The attribute pairs of a list of event-handler entries, in entry order.
pub open spec fn event_pairs(entries: Seq<(EventKey, Seq<char>)>) -> Seq<(Seq<char>, Seq<char>)> {
    entries.map_values(|e: (EventKey, Seq<char>)| (event_name(e.0), e.1))
}

/// The event-handler attribute group: an insertion-ordered map from event
/// name to script text. Keeping entries in insertion order makes repeated
/// serialization of the same element byte-identical.
pub struct EventMap {
    entries: Vec<(EventKey, String)>,
}

impl EventMap {
    /// The entries as key/text pairs, in insertion order.
    pub closed spec fn entries_seq(&self) -> Seq<(EventKey, Seq<char>)> {
        self.entries@.map_values(|e: (EventKey, String)| (e.0, e.1@))
    }

    /// Whether some entry carries the key.
    pub open spec fn contains_key(&self, k: EventKey) -> bool {
        exists|i: int|
            0 <= i < self.entries_seq().len() && (#[trigger] self.entries_seq()[i]).0 == k
    }

    /// No two entries share a key: the group never emits two attributes with
    /// the same resolved name.
    pub open spec fn wf(&self) -> bool {
        forall|i: int, j: int|
            0 <= i < j < self.entries_seq().len() ==> (#[trigger] self.entries_seq()[i]).0 != (
            #[trigger] self.entries_seq()[j]).0
    }

    pub fn new() -> (m: EventMap)
        ensures
            m.entries_seq() == Seq::<(EventKey, Seq<char>)>::empty(),
            m.wf(),
    {
        let m = EventMap { entries: Vec::new() };
        proof {
            assert(m.entries_seq() =~= Seq::<(EventKey, Seq<char>)>::empty());
        }
        m
    }

    /// Binds a script to an event name. A key already present keeps its
    /// position and gets the new text; a new key is appended at the end.
    pub fn insert(&mut self, k: EventKey, script: String)
        requires
            old(self).wf(),
        ensures
            final(self).wf(),
            old(self).contains_key(k) ==> exists|i: int|
                0 <= i < old(self).entries_seq().len() && (#[trigger] old(self).entries_seq()[i]).0
                    == k && final(self).entries_seq() == old(self).entries_seq().update(
                    i,
                    (k, script@),
                ),
            !old(self).contains_key(k) ==> final(self).entries_seq() == old(self).entries_seq().push((k, script@)),
    {
        let n = self.entries.len();
        let mut i: usize = 0;
        while i < n
            invariant
                i <= n,
                n == self.entries@.len(),
                old(self).wf(),
                self.entries@ == old(self).entries@,
                forall|j: int| 0 <= j < i ==> (#[trigger] self.entries@[j]).0 != k,
            decreases n - i,
        {
            let hit = self.entries[i].0 == k;
            if hit {
                let ghost idx = i as int;
                self.entries[i] = (k, script);
                proof {
                    let os = old(self).entries_seq();
                    assert(old(self).entries@[idx].0 == k);
                    assert(os[idx] == (old(self).entries@[idx].0, old(self).entries@[idx].1@));
                    assert(final(self).entries_seq() =~= os.update(idx, (k, script@)));
                    assert(old(self).entries_seq().update(idx, (k, script@)).len() == old(
                        self).entries_seq().len());
                    assert(final(self).entries_seq().len() == old(self).entries_seq().len());
                    assert forall|j: int| 0 <= j < os.len() implies (#[trigger] final(self).entries_seq()[j]).0 == os[j].0 by {}
                    assert forall|a: int, b: int|
                        0 <= a < b < final(self).entries_seq().len() implies (#[trigger] final(self).entries_seq()[a]).0 != (#[trigger] final(self).entries_seq()[b]).0 by {
                        assert(0 <= a < b < old(self).entries_seq().len());
                        assert((old(self).entries_seq()[a]).0 != (old(self).entries_seq()[b]).0);
                        assert((final(self).entries_seq()[a]).0 == (old(self).entries_seq()[a]).0);
                        assert((final(self).entries_seq()[b]).0 == (old(self).entries_seq()[b]).0);
                    }
                    assert((os[idx]).0 == k);
                    assert(old(self).contains_key(k));
                    assert(exists|w: int|
                        0 <= w < os.len() && (#[trigger] os[w]).0 == k && final(self).entries_seq()
                            == os.update(w, (k, script@)));
                }
                return ;
            }
            i = i + 1;
        }
        self.entries.push((k, script));
        proof {
            let os = old(self).entries_seq();
            assert(final(self).entries_seq() =~= os.push((k, script@)));
            assert forall|j: int| 0 <= j < os.len() implies (#[trigger] os[j]).0 != k by {
                assert(old(self).entries@[j].0 != k);
            }
            assert(!old(self).contains_key(k));
            assert forall|a: int, b: int|
                0 <= a < b < final(self).entries_seq().len() implies (#[trigger] final(self).entries_seq()[a]).0 != (#[trigger] final(self).entries_seq()[b]).0 by {
                if b < os.len() {
                    assert((old(self).entries_seq()[a]).0 != (old(self).entries_seq()[b]).0);
                } else {
                    assert(final(self).entries_seq()[b].0 == k);
                    assert((os[a]).0 != k);
                }
            }
        }
    }

    /// Appends every entry's attribute to the tag being built, in entry
    /// order. The group invents no errors: it fails only if the builder
    /// does, and this builder never fails.
    pub fn write_in(&self, tb: &mut TagBuilder) -> (r: Result<(), Error>)
        ensures
            r is Ok,
            final(tb).pairs() == old(tb).pairs() + event_pairs(self.entries_seq()),
    {
        let n = self.entries.len();
        let mut i: usize = 0;
        while i < n
            invariant
                i <= n,
                n == self.entries@.len(),
                tb.pairs() == old(tb).pairs() + event_pairs(self.entries_seq().take(i as int)),
            decreases n - i,
        {
            let key_text = self.entries[i].0.as_text().to_owned();
            let script = self.entries[i].1.clone();
            tb.push_pair(key_text, script);
            proof {
                assert(tb.pairs() =~= old(tb).pairs() + event_pairs(
                    self.entries_seq().take(i + 1 as int),
                ));
            }
            i = i + 1;
        }
        proof {
            assert(self.entries_seq().take(n as int) =~= self.entries_seq());
        }
        Ok(())
    }
}

impl Default for EventMap {
    fn default() -> (d: EventMap)
        ensures
            d.entries_seq() == Seq::<(EventKey, Seq<char>)>::empty(),
            d.wf(),
    {
        EventMap::new()
    }
}

} // verus!
