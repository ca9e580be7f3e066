use vstd::prelude::*;

use crate::attr::{
    event_pairs, token_attr, CondProcAttr, CoreAttr, EventMap, ReferrerPolicy, StylingAttr,
    TagBuilder,
};
use crate::convert::{
    attrs_text, lemma_prefix_extend, lemma_prefix_refl, list_attr, literal_attr,
};
use crate::error::Error;
use crate::escape::{escape_text, text_escaped};
use crate::sink::Sink;

verus! {

/// What may appear inside an element: a nested element, literal text that
/// is escaped on output, or raw text emitted exactly as given. The
/// escaping decision is made once, by the variant, never by inspecting the
/// content.
pub enum ChildKind {
    Node(Anchor),
    Text(String),
    RawText(String),
}

/// An anchor element: direct optional attributes, the composable attribute
/// groups, and an optional ordered children list.
///
/// `children` distinguishes two shapes on purpose: `None` renders as a
/// self-closed tag, `Some` with an empty list as an explicit open/close
/// pair.
pub struct Anchor {
    pub download: Option<String>,
    pub href: Option<String>,
    pub href_lang: Option<String>,
    pub ping: Option<Vec<String>>,
    pub referrer_policy: Option<ReferrerPolicy>,
    pub core: CoreAttr,
    pub styling: StylingAttr,
    pub cond_proc: CondProcAttr,
    pub events: EventMap,
    pub children: Option<Vec<ChildKind>>,
}

/// The anchor element's tag name.
pub open spec fn tag_name_spec() -> Seq<char> {
    "a"@
}

/// The resolved attribute pairs of an anchor, in the declared emission
/// order: the direct attributes first, then each attribute group in
/// declared group order, then the trailing direct attributes.
pub open spec fn node_attrs(n: Anchor) -> Seq<(Seq<char>, Seq<char>)> {
    literal_attr("download"@, n.download) + literal_attr("href"@, n.href) + literal_attr(
        "hreflang"@,
        n.href_lang,
    ) + n.core.attr_pairs() + n.styling.attr_pairs() + n.cond_proc.attr_pairs() + event_pairs(
        n.events.entries_seq(),
    ) + list_attr("ping"@, n.ping, " "@) + token_attr("referrerpolicy"@, n.referrer_policy)
}

/// Well-formedness of a node: its event map carries no duplicate key, and
/// every nested node is well formed in turn.
pub open spec fn node_wf(n: Anchor) -> bool
    decreases n,
{
    n.events.wf() && match n.children {
        Option::None => true,
        Option::Some(cs) => children_wf(cs@),
    }
}

pub open spec fn children_wf(cs: Seq<ChildKind>) -> bool
    decreases cs,
{
    if cs.len() == 0 {
        true
    } else {
        child_wf(cs[0]) && children_wf(cs.drop_first())
    }
}

pub open spec fn child_wf(c: ChildKind) -> bool
    decreases c,
{
    match c {
        ChildKind::Node(m) => node_wf(m),
        ChildKind::Text(_) => true,
        ChildKind::RawText(_) => true,
    }
}

/// The full rendered text of one node: start tag with attributes, then
/// either an immediate self-close, or the children in order followed by
/// the end tag. The engine inserts nothing of its own between children.
pub open spec fn node_text(n: Anchor) -> Seq<char>
    decreases n,
{
    match n.children {
        Option::None => seq!['<'] + tag_name_spec() + attrs_text(node_attrs(n)) + seq!['/', '>'],
        Option::Some(cs) => seq!['<'] + tag_name_spec() + attrs_text(node_attrs(n)) + seq!['>']
            + children_text(cs@) + seq!['<', '/'] + tag_name_spec() + seq!['>'],
    }
}

/// The rendered text of a children list, left to right.
pub open spec fn children_text(cs: Seq<ChildKind>) -> Seq<char>
    decreases cs,
{
    if cs.len() == 0 {
        Seq::empty()
    } else {
        child_text(cs[0]) + children_text(cs.drop_first())
    }
}

/// The rendered text of one child: a nested node renders recursively,
/// literal text renders escaped, raw text renders as given.
pub open spec fn child_text(c: ChildKind) -> Seq<char>
    decreases c,
{
    match c {
        ChildKind::Node(m) => node_text(m),
        ChildKind::Text(s) => text_escaped(s@),
        ChildKind::RawText(s) => s@,
    }
}

/// How many sink appends serializing one node takes: the open piece, one
/// per resolved attribute, the `>` or `/>` piece, each child's appends,
/// and the closing piece when a children list is present.
pub open spec fn node_writes(n: Anchor) -> nat
    decreases n,
{
    match n.children {
        Option::None => 2 + node_attrs(n).len(),
        Option::Some(cs) => 3 + node_attrs(n).len() + children_writes(cs@),
    }
}

pub open spec fn children_writes(cs: Seq<ChildKind>) -> nat
    decreases cs,
{
    if cs.len() == 0 {
        0
    } else {
        child_writes(cs[0]) + children_writes(cs.drop_first())
    }
}

/// A text or raw-text child is one append; a nested node takes its own
/// count.
pub open spec fn child_writes(c: ChildKind) -> nat
    decreases c,
{
    match c {
        ChildKind::Node(m) => node_writes(m),
        ChildKind::Text(_) => 1,
        ChildKind::RawText(_) => 1,
    }
}

/// The exact text a node's serialization has handed to the sink after its
/// first `b` appends succeeded and the next one was refused. Only the
/// regime `b < node_writes(n)` is ever used: for larger budgets the
/// serialization completes instead.
pub open spec fn node_partial_text(n: Anchor, b: nat) -> Seq<char>
    decreases n,
{
    let a = node_attrs(n).len();
    if b == 0 {
        Seq::empty()
    } else if b <= a + 1 {
        seq!['<'] + tag_name_spec() + attrs_text(node_attrs(n).take(b - 1))
    } else {
        match n.children {
            Option::None => node_text(n),
            Option::Some(cs) => seq!['<'] + tag_name_spec() + attrs_text(node_attrs(n))
                + seq!['>'] + children_partial_text(cs@, (b - a - 2) as nat),
        }
    }
}

pub open spec fn children_partial_text(cs: Seq<ChildKind>, b: nat) -> Seq<char>
    decreases cs,
{
    if cs.len() == 0 {
        Seq::empty()
    } else if b < child_writes(cs[0]) {
        child_partial_text(cs[0], b)
    } else {
        child_text(cs[0]) + children_partial_text(cs.drop_first(), (b - child_writes(cs[0])) as nat)
    }
}

pub open spec fn child_partial_text(c: ChildKind, b: nat) -> Seq<char>
    decreases c,
{
    match c {
        ChildKind::Node(m) => node_partial_text(m, b),
        ChildKind::Text(_) => Seq::empty(),
        ChildKind::RawText(_) => Seq::empty(),
    }
}

pub proof fn lemma_children_writes_push(cs: Seq<ChildKind>, c: ChildKind)
    ensures
        children_writes(cs.push(c)) == children_writes(cs) + child_writes(c),
    decreases cs.len(),
{
    if cs.len() == 0 {
        assert(cs.push(c).drop_first() =~= Seq::<ChildKind>::empty());
        assert(cs.push(c)[0] == c);
        assert(children_writes(cs.push(c)) == child_writes(c) + children_writes(
            Seq::<ChildKind>::empty(),
        ));
        assert(children_writes(Seq::<ChildKind>::empty()) == 0);
        assert(children_writes(cs) == 0);
    } else {
        lemma_children_writes_push(cs.drop_first(), c);
        assert(cs.push(c).drop_first() =~= cs.drop_first().push(c));
        assert(cs.push(c)[0] == cs[0]);
        assert(children_writes(cs.push(c)) == child_writes(cs[0]) + children_writes(
            cs.drop_first().push(c),
        ));
        assert(children_writes(cs) == child_writes(cs[0]) + children_writes(cs.drop_first()));
    }
}

pub proof fn lemma_children_writes_concat(a: Seq<ChildKind>, b: Seq<ChildKind>)
    ensures
        children_writes(a + b) == children_writes(a) + children_writes(b),
    decreases a.len(),
{
    if a.len() == 0 {
        assert(a + b =~= b);
        assert(children_writes(a) == 0);
    } else {
        lemma_children_writes_concat(a.drop_first(), b);
        assert((a + b).drop_first() =~= a.drop_first() + b);
        assert((a + b)[0] == a[0]);
        assert(children_writes(a + b) == child_writes(a[0]) + children_writes(a.drop_first() + b));
        assert(children_writes(a) == child_writes(a[0]) + children_writes(a.drop_first()));
    }
}

/// A budget that covers the whole children list renders it completely.
pub proof fn lemma_children_partial_full(cs: Seq<ChildKind>, b: nat)
    requires
        b >= children_writes(cs),
    ensures
        children_partial_text(cs, b) == children_text(cs),
    decreases cs.len(),
{
    if cs.len() == 0 {
    } else {
        lemma_children_partial_full(cs.drop_first(), (b - child_writes(cs[0])) as nat);
    }
}

/// A budget that ends inside child `i` renders the children before it in
/// full and child `i` up to the remaining budget.
pub proof fn lemma_children_partial_split(cs: Seq<ChildKind>, i: int, r: nat)
    requires
        0 <= i < cs.len(),
        r < child_writes(cs[i]),
    ensures
        children_partial_text(cs, (children_writes(cs.take(i)) + r) as nat) == children_text(
            cs.take(i),
        ) + child_partial_text(cs[i], r),
    decreases i,
{
    if i == 0 {
        assert(cs.take(0) =~= Seq::<ChildKind>::empty());
        assert(children_writes(cs.take(0)) == 0);
        assert(children_text(cs.take(0)) == Seq::<char>::empty());
        assert(children_partial_text(cs, r) == child_partial_text(cs[0], r));
        assert(Seq::<char>::empty() + child_partial_text(cs[0], r) =~= child_partial_text(
            cs[0],
            r,
        ));
    } else {
        let rest = cs.drop_first();
        assert(cs.take(i).drop_first() =~= rest.take(i - 1));
        assert(cs.take(i)[0] == cs[0]);
        assert(children_writes(cs.take(i)) == child_writes(cs[0]) + children_writes(
            rest.take(i - 1),
        ));
        assert(children_text(cs.take(i)) == child_text(cs[0]) + children_text(rest.take(i - 1)));
        assert(rest[i - 1] == cs[i]);
        lemma_children_partial_split(rest, i - 1, r);
        let b = (children_writes(cs.take(i)) + r) as nat;
        assert(b >= child_writes(cs[0]));
        assert(children_partial_text(cs, b) == child_text(cs[0]) + children_partial_text(
            rest,
            (b - child_writes(cs[0])) as nat,
        ));
        assert((b - child_writes(cs[0])) as nat == (children_writes(rest.take(i - 1)) + r) as nat);
        assert(child_text(cs[0]) + (children_text(rest.take(i - 1)) + child_partial_text(
            cs[i],
            r,
        )) =~= (child_text(cs[0]) + children_text(rest.take(i - 1))) + child_partial_text(
            cs[i],
            r,
        ));
    }
}

pub proof fn lemma_children_text_push(cs: Seq<ChildKind>, c: ChildKind)
    ensures
        children_text(cs.push(c)) == children_text(cs) + child_text(c),
    decreases cs.len(),
{
    if cs.len() == 0 {
        let e = Seq::<ChildKind>::empty();
        assert(cs.push(c).drop_first() =~= e);
        assert(cs.push(c)[0] == c);
        assert(children_text(cs.push(c)) == child_text(c) + children_text(e));
        assert(child_text(c) + Seq::<char>::empty() =~= children_text(cs) + child_text(c));
    } else {
        lemma_children_text_push(cs.drop_first(), c);
        assert(cs.push(c).drop_first() =~= cs.drop_first().push(c));
        assert(cs.push(c)[0] == cs[0]);
        assert(children_text(cs.push(c)) == child_text(cs[0]) + (children_text(cs.drop_first())
            + child_text(c)));
        assert(child_text(cs[0]) + (children_text(cs.drop_first()) + child_text(c)) =~= (child_text(
            cs[0],
        ) + children_text(cs.drop_first())) + child_text(c));
    }
}

/// Assembles the open tag's attribute list for one node: the direct
/// attributes and every group, in the declared order.
fn build_tag(n: &Anchor) -> (r: Result<TagBuilder, Error>)
    ensures
        r is Ok,
        r matches Ok(tb) ==> tb.pairs() == node_attrs(*n),
{
    let mut tb = TagBuilder::new();
    tb.push_literal("download", &n.download);
    tb.push_literal("href", &n.href);
    tb.push_literal("hreflang", &n.href_lang);
    n.core.write_in(&mut tb)?;
    n.styling.write_in(&mut tb)?;
    n.cond_proc.write_in(&mut tb);
    n.events.write_in(&mut tb)?;
    tb.push_joined("ping", &n.ping, " ");
    tb.push_token("referrerpolicy", &n.referrer_policy);
    proof {
        assert(tb.pairs() =~= node_attrs(*n));
    }
    Ok(tb)
}

impl Anchor {
    /// The constant tag name of this element.
    pub fn tag_name(&self) -> (r: String)
        ensures
            r@ == tag_name_spec(),
    {
        "a".to_owned()
    }

    /// Serializes this node and its descendants into the sink, depth first
    /// and left to right.
    ///
    /// The appended text is a function of the node alone, so two writes of
    /// the same unmutated node produce byte-identical output. The call
    /// succeeds exactly when the sink accepts every one of the
    /// `node_writes` appends the tree takes; the element and its groups
    /// invent no errors of their own. A sink failure aborts the traversal
    /// at the failure point: the sink then holds precisely the appends its
    /// budget covered (`node_partial_text`), nothing past the failure point
    /// is attempted, and the sink only ever grows.
    #[verifier::loop_isolation(false)]
    #[verifier::rlimit(100)]
    pub fn write(&self, out: &mut Sink) -> (r: Result<(), Error>)
        ensures
            r is Ok ==> final(out).text() == old(out).text() + node_text(*self),
            r is Ok <==> (old(out).budget() is None || (old(out).budget() matches Some(b) && b
                >= node_writes(*self))),
            old(out).budget() is None ==> final(out).budget() is None,
            old(out).budget() matches Some(b) ==> (b >= node_writes(*self) ==> final(out).budget()
                == Some((b - node_writes(*self)) as u64)),
            r is Err ==> r == Err::<(), Error>(Error::SinkWriteFailure) && final(out).budget()
                == Some(0u64),
            old(out).budget() matches Some(b) ==> (b < node_writes(*self) ==> final(out).text()
                == old(out).text() + node_partial_text(*self, b as nat)),
            old(out).text().is_prefix_of(final(out).text()),
            final(out).infallible() == old(out).infallible(),
        decreases *self,
    {
        let ghost target = old(out).text() + node_text(*self);
        let ghost a = node_attrs(*self).len();
        let tag = self.tag_name();
        let mut open_piece = "<".to_owned();
        open_piece.append(tag.as_str());
        match out.append(open_piece.as_str()) {
            Ok(()) => {},
            Err(e) => {
                proof {
                    lemma_prefix_refl(old(out).text());
                    assert(node_writes(*self) >= 2);
                    assert(node_partial_text(*self, 0) == Seq::<char>::empty());
                    assert(old(out).text() + node_partial_text(*self, 0) =~= old(out).text());
                }
                return Err(e);
            },
        }
        let tb = match build_tag(self) {
            Ok(tb) => tb,
            Err(e) => {
                return Err(e);
            },
        };
        proof {
            reveal_strlit("<");
            assert(out.text() =~= old(out).text() + (seq!['<'] + tag_name_spec()));
        }
        let ghost after_open = old(out).text() + (seq!['<'] + tag_name_spec());
        match tb.emit(out) {
            Ok(()) => {},
            Err(e) => {
                proof {
                    if let Some(b) = old(out).budget() {
                        assert(b >= 1 && b - 1 < a);
                        assert(node_writes(*self) >= 2 + a);
                        assert(node_partial_text(*self, b as nat) == seq!['<'] + tag_name_spec()
                            + attrs_text(node_attrs(*self).take(b - 1)));
                        assert(out.text() =~= old(out).text() + node_partial_text(
                            *self,
                            b as nat,
                        ));
                        lemma_prefix_refl(old(out).text());
                        lemma_prefix_extend(
                            old(out).text(),
                            old(out).text(),
                            node_partial_text(*self, b as nat),
                        );
                    }
                }
                return Err(e);
            },
        }
        proof {
            assert(out.text() =~= after_open + attrs_text(node_attrs(*self)));
        }
        let ghost after_attrs = after_open + attrs_text(node_attrs(*self));
        match &self.children {
            None => {
                proof {
                    assert(node_writes(*self) == 2 + a);
                }
                match out.append("/>") {
                    Ok(()) => {},
                    Err(e) => {
                        proof {
                            if let Some(b) = old(out).budget() {
                                assert(b == a + 1);
                                assert(node_attrs(*self).take(b - 1) =~= node_attrs(*self));
                                assert(node_partial_text(*self, b as nat) == seq!['<']
                                    + tag_name_spec() + attrs_text(node_attrs(*self)));
                                assert(out.text() =~= old(out).text() + node_partial_text(
                                    *self,
                                    b as nat,
                                ));
                                lemma_prefix_refl(old(out).text());
                                lemma_prefix_extend(
                                    old(out).text(),
                                    old(out).text(),
                                    node_partial_text(*self, b as nat),
                                );
                            }
                        }
                        return Err(e);
                    },
                }
                proof {
                    reveal_strlit("/>");
                    assert(out.text() =~= target);
                    lemma_prefix_refl(old(out).text());
                    lemma_prefix_extend(old(out).text(), old(out).text(), node_text(*self));
                }
                Ok(())
            },
            Some(cs) => {
                proof {
                    assert(node_writes(*self) == 3 + a + children_writes(cs@));
                }
                match out.append(">") {
                    Ok(()) => {},
                    Err(e) => {
                        proof {
                            if let Some(b) = old(out).budget() {
                                assert(b == a + 1);
                                assert(node_attrs(*self).take(b - 1) =~= node_attrs(*self));
                                assert(node_partial_text(*self, b as nat) == seq!['<']
                                    + tag_name_spec() + attrs_text(node_attrs(*self)));
                                assert(out.text() =~= old(out).text() + node_partial_text(
                                    *self,
                                    b as nat,
                                ));
                                lemma_prefix_refl(old(out).text());
                                lemma_prefix_extend(
                                    old(out).text(),
                                    old(out).text(),
                                    node_partial_text(*self, b as nat),
                                );
                            }
                        }
                        return Err(e);
                    },
                }
                proof {
                    reveal_strlit(">");
                    assert(out.text() =~= after_attrs + seq!['>']);
                }
                let ghost after_gt = after_attrs + seq!['>'];
                let n = cs.len();
                let mut i: usize = 0;
                while i < n
                    invariant
                        i <= n,
                        n == cs@.len(),
                        out.text() == after_gt + children_text(cs@.take(i as int)),
                        out.infallible() == old(out).infallible(),
                        old(out).budget() is None ==> out.budget() is None,
                        old(out).budget() matches Some(b) ==> b >= a + 2 + children_writes(
                            cs@.take(i as int),
                        ) && out.budget() == Some(
                            (b - a - 2 - children_writes(cs@.take(i as int))) as u64,
                        ),
                    decreases n - i,
                {
                    let ghost done = children_text(cs@.take(i as int));
                    let ghost cwi = children_writes(cs@.take(i as int));
                    let r = match &cs[i] {
                        ChildKind::Node(m) => m.write(out),
                        ChildKind::Text(s) => {
                            let e = escape_text(s.as_str());
                            out.append(e.as_str())
                        },
                        ChildKind::RawText(s) => out.append(s.as_str()),
                    };
                    match r {
                        Ok(()) => {},
                        Err(e) => {
                            proof {
                                if let Some(b) = old(out).budget() {
                                    let rem = (b - a - 2 - cwi) as nat;
                                    assert(rem < child_writes(cs@[i as int]));
                                    assert(out.text() == after_gt + done + child_partial_text(
                                        cs@[i as int],
                                        rem,
                                    ));
                                    lemma_children_partial_split(cs@, i as int, rem);
                                    assert(node_partial_text(*self, b as nat) == seq!['<']
                                        + tag_name_spec() + attrs_text(node_attrs(*self))
                                        + seq!['>'] + children_partial_text(
                                        cs@,
                                        (b - a - 2) as nat,
                                    ));
                                    assert(out.text() =~= old(out).text() + node_partial_text(
                                        *self,
                                        b as nat,
                                    ));
                                    assert(cs@ =~= cs@.take(i + 1 as int) + cs@.skip(i + 1 as int));
                                    lemma_children_writes_concat(
                                        cs@.take(i + 1 as int),
                                        cs@.skip(i + 1 as int),
                                    );
                                    lemma_children_writes_push(cs@.take(i as int), cs@[i as int]);
                                    assert(cs@.take(i + 1 as int) =~= cs@.take(i as int).push(
                                        cs@[i as int],
                                    ));
                                    assert(b < node_writes(*self));
                                    lemma_prefix_refl(old(out).text());
                                    lemma_prefix_extend(
                                        old(out).text(),
                                        old(out).text(),
                                        node_partial_text(*self, b as nat),
                                    );
                                }
                            }
                            return Err(e);
                        },
                    }
                    proof {
                        lemma_children_text_push(cs@.take(i as int), cs@[i as int]);
                        lemma_children_writes_push(cs@.take(i as int), cs@[i as int]);
                        assert(cs@.take(i + 1 as int) =~= cs@.take(i as int).push(cs@[i as int]));
                        assert(out.text() =~= after_gt + children_text(cs@.take(i + 1 as int)));
                    }
                    i = i + 1;
                }
                proof {
                    assert(cs@.take(n as int) =~= cs@);
                }
                let mut close_piece = "</".to_owned();
                close_piece.append(tag.as_str());
                close_piece.append(">");
                match out.append(close_piece.as_str()) {
                    Ok(()) => {},
                    Err(e) => {
                        proof {
                            if let Some(b) = old(out).budget() {
                                assert(b == a + 2 + children_writes(cs@));
                                lemma_children_partial_full(cs@, children_writes(cs@));
                                assert(node_partial_text(*self, b as nat) == seq!['<']
                                    + tag_name_spec() + attrs_text(node_attrs(*self)) + seq!['>']
                                    + children_text(cs@));
                                assert(out.text() =~= old(out).text() + node_partial_text(
                                    *self,
                                    b as nat,
                                ));
                                lemma_prefix_refl(old(out).text());
                                lemma_prefix_extend(
                                    old(out).text(),
                                    old(out).text(),
                                    node_partial_text(*self, b as nat),
                                );
                            }
                        }
                        return Err(e);
                    },
                }
                proof {
                    reveal_strlit("</");
                    reveal_strlit(">");
                    assert(out.text() =~= target);
                    lemma_prefix_refl(old(out).text());
                    lemma_prefix_extend(old(out).text(), old(out).text(), node_text(*self));
                }
                Ok(())
            },
        }
    }
}

impl Default for Anchor {
    /// A fresh anchor: every optional attribute absent, every group empty,
    /// no children list. It renders as a bare self-closed tag.
    fn default() -> (d: Anchor)
        ensures
            d.download is None,
            d.href is None,
            d.href_lang is None,
            d.ping is None,
            d.referrer_policy is None,
            d.core.id is None,
            d.core.lang is None,
            d.styling.class is None,
            d.styling.style is None,
            d.cond_proc.required_features is None,
            d.cond_proc.required_extensions is None,
            d.cond_proc.system_language is None,
            d.events.entries_seq() == Seq::<(crate::attr::EventKey, Seq<char>)>::empty(),
            d.children is None,
            node_wf(d),
            node_attrs(d) == Seq::<(Seq<char>, Seq<char>)>::empty(),
    {
        let d = Anchor {
            download: None,
            href: None,
            href_lang: None,
            ping: None,
            referrer_policy: None,
            core: CoreAttr::default(),
            styling: StylingAttr::default(),
            cond_proc: CondProcAttr::default(),
            events: EventMap::new(),
            children: None,
        };
        proof {
            assert(event_pairs(d.events.entries_seq()) =~= Seq::<(Seq<char>, Seq<char>)>::empty());
            assert(node_attrs(d) =~= Seq::<(Seq<char>, Seq<char>)>::empty());
        }
        d
    }
}


} // verus!
