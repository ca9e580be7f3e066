use markup_tree::attr::{EventKey, ReferrerPolicy};
use markup_tree::element::{Anchor, ChildKind};
use markup_tree::error::Error;
use markup_tree::sink::Sink;

fn render(node: &Anchor) -> String {
    node.try_to_string().unwrap()
}

#[test]
fn default_renders_bare_self_closed_tag() {
    let a = Anchor::default();
    assert_eq!(render(&a), "<a/>");
}

#[test]
fn absent_attributes_are_omitted() {
    let mut a = Anchor::default();
    a.href = Some("x".to_string());
    let out = render(&a);
    assert!(!out.contains("download"));
    assert!(!out.contains("hreflang"));
    assert!(!out.contains("ping"));
    assert!(!out.contains("class"));
    assert!(!out.contains("referrerpolicy"));
    assert!(!out.contains("onclick"));
}

#[test]
fn present_attribute_appears_exactly_once() {
    let mut a = Anchor::default();
    a.href = Some("https://example.test/p".to_string());
    let out = render(&a);
    assert_eq!(out, "<a href=\"https://example.test/p\"/>");
    assert_eq!(out.matches("href=").count(), 1);
}

#[test]
fn list_attribute_joins_with_separator() {
    let mut a = Anchor::default();
    a.ping = Some(vec!["a".to_string(), "b".to_string(), "c".to_string()]);
    assert_eq!(render(&a), "<a ping=\"a b c\"/>");
}

#[test]
fn empty_list_attribute_is_absent() {
    let mut a = Anchor::default();
    a.ping = Some(Vec::new());
    assert_eq!(render(&a), "<a/>");
}

#[test]
fn list_join_skips_empty_entries() {
    let mut a = Anchor::default();
    a.styling.class = Some(vec!["".to_string(), "x".to_string(), "".to_string()]);
    assert_eq!(render(&a), "<a class=\"x\"/>");
}

#[test]
fn system_language_joins_with_comma() {
    let mut a = Anchor::default();
    a.cond_proc.system_language = Some(vec!["en".to_string(), "de".to_string()]);
    assert_eq!(render(&a), "<a systemLanguage=\"en,de\"/>");
}

#[test]
fn text_content_escapes_structural_characters_only() {
    let mut a = Anchor::default();
    a.children = Some(vec![ChildKind::Text("<b>&\"'</b>".to_string())]);
    assert_eq!(render(&a), "<a>&lt;b&gt;&amp;\"'&lt;/b&gt;</a>");
}

#[test]
fn attribute_value_escapes_amp_quote_lt() {
    let mut a = Anchor::default();
    a.href = Some("a&b\"c<d>e".to_string());
    assert_eq!(render(&a), "<a href=\"a&amp;b&quot;c&lt;d>e\"/>");
}

#[test]
fn raw_text_is_emitted_unchanged() {
    let mut a = Anchor::default();
    a.children = Some(vec![ChildKind::RawText("<b>&</b>".to_string())]);
    assert_eq!(render(&a), "<a><b>&</b></a>");
}

#[test]
fn no_children_self_closes_but_empty_list_does_not() {
    let none = Anchor::default();
    let mut empty = Anchor::default();
    empty.children = Some(Vec::new());
    assert_eq!(render(&none), "<a/>");
    assert_eq!(render(&empty), "<a></a>");
}

#[test]
fn repeated_serialization_is_byte_identical() {
    let mut a = Anchor::default();
    a.download = Some("f.txt".to_string());
    a.href = Some("u".to_string());
    a.core.id = Some("k".to_string());
    a.styling.class = Some(vec!["x".to_string(), "y".to_string()]);
    a.events.insert(EventKey::OnClick, "go()".to_string());
    a.children = Some(vec![ChildKind::Text("t".to_string())]);
    let first = render(&a);
    let second = render(&a);
    assert_eq!(first, second);
}

#[test]
fn nested_nodes_render_depth_first_without_extras() {
    let mut inner = Anchor::default();
    inner.children = Some(vec![ChildKind::Text("hi".to_string())]);
    let mut outer = Anchor::default();
    outer.children = Some(vec![ChildKind::Node(inner)]);
    assert_eq!(render(&outer), "<a><a>hi</a></a>");
}

#[test]
fn attributes_keep_declared_order() {
    let mut a = Anchor::default();
    a.referrer_policy = Some(ReferrerPolicy::Origin);
    a.ping = Some(vec!["p".to_string()]);
    a.core.id = Some("k".to_string());
    a.core.lang = Some("en".to_string());
    a.styling.style = Some("c:red".to_string());
    a.href = Some("u".to_string());
    a.download = Some("d".to_string());
    a.events.insert(EventKey::OnLoad, "l()".to_string());
    assert_eq!(
        render(&a),
        "<a download=\"d\" href=\"u\" id=\"k\" lang=\"en\" style=\"c:red\" onload=\"l()\" ping=\"p\" referrerpolicy=\"origin\"/>"
    );
}

#[test]
fn event_entries_keep_insertion_order() {
    let mut a = Anchor::default();
    a.events.insert(EventKey::OnScroll, "s()".to_string());
    a.events.insert(EventKey::OnClick, "c()".to_string());
    assert_eq!(render(&a), "<a onscroll=\"s()\" onclick=\"c()\"/>");
}

#[test]
fn event_insert_replaces_value_in_place() {
    let mut a = Anchor::default();
    a.events.insert(EventKey::OnScroll, "s()".to_string());
    a.events.insert(EventKey::OnClick, "c()".to_string());
    a.events.insert(EventKey::OnScroll, "t()".to_string());
    let out = render(&a);
    assert_eq!(out, "<a onscroll=\"t()\" onclick=\"c()\"/>");
    assert_eq!(out.matches("onscroll").count(), 1);
}

#[test]
fn referrer_policy_uses_canonical_spelling() {
    let mut a = Anchor::default();
    a.referrer_policy = Some(ReferrerPolicy::StrictOriginWhenCrossOrigin);
    assert_eq!(
        render(&a),
        "<a referrerpolicy=\"strict-origin-when-cross-origin\"/>"
    );
}

#[test]
fn sink_collects_written_text() {
    let mut a = Anchor::default();
    a.href = Some("u".to_string());
    a.children = Some(vec![ChildKind::Text("hi".to_string())]);
    let mut sink = Sink::new();
    assert!(a.write(&mut sink).is_ok());
    assert_eq!(sink.text_string(), "<a href=\"u\">hi</a>");
}

#[test]
fn sink_failure_aborts_after_failure_point() {
    let mut a = Anchor::default();
    a.href = Some("x".to_string());
    a.children = Some(vec![ChildKind::Text("hi".to_string())]);
    // The node takes five appends: "<a", " href=\"x\"", ">", "hi", "</a>".
    let mut sink = Sink::failing_after(2);
    let r = a.write(&mut sink);
    assert_eq!(r, Err(Error::SinkWriteFailure));
    assert_eq!(sink.text_string(), "<a href=\"x\"");
}

#[test]
fn sink_with_spent_budget_refuses_and_keeps_text() {
    let mut sink = Sink::failing_after(0);
    assert_eq!(sink.append("x"), Err(Error::SinkWriteFailure));
    assert_eq!(sink.text_string(), "");
}

#[test]
fn exhausted_budget_fails_whole_write_of_default_node() {
    let a = Anchor::default();
    let mut sink = Sink::failing_after(1);
    // Two appends are needed: "<a" and "/>".
    assert_eq!(a.write(&mut sink), Err(Error::SinkWriteFailure));
    assert_eq!(sink.text_string(), "<a");
}

#[test]
fn write_xml_appends_to_quick_xml_writer() {
    let mut a = Anchor::default();
    a.href = Some("u&v".to_string());
    a.children = Some(vec![ChildKind::Text("t<u".to_string())]);
    let mut writer = markup_tree::xml::writer_new();
    assert!(a.write_xml(&mut writer).is_ok());
    let text = markup_tree::xml::writer_text(writer);
    assert_eq!(text, "<a href=\"u&amp;v\">t&lt;u</a>");
}

#[test]
fn write_xml_twice_appends_twice() {
    let a = Anchor::default();
    let mut writer = markup_tree::xml::writer_new();
    assert!(a.write_xml(&mut writer).is_ok());
    assert!(a.write_xml(&mut writer).is_ok());
    assert_eq!(markup_tree::xml::writer_text(writer), "<a/><a/>");
}

#[test]
fn write_xml_agrees_with_plain_quick_xml_writer() {
    let mut a = Anchor::default();
    a.href = Some("u".to_string());
    let mut writer = quick_xml::Writer::new(std::io::Cursor::new(Vec::new()));
    assert!(a.write_xml(&mut writer).is_ok());
    let bytes = writer.into_inner().into_inner();
    assert_eq!(String::from_utf8(bytes).unwrap(), "<a href=\"u\"/>");
}

#[test]
fn conversion_functions_follow_declared_rules() {
    assert_eq!(
        markup_tree::convert::convert_literal("href", &Some("v".to_string())),
        Some(("href".to_string(), "v".to_string()))
    );
    assert_eq!(markup_tree::convert::convert_literal("href", &None), None);
    assert_eq!(
        markup_tree::convert::convert_joined(
            "ping",
            &Some(vec!["a".to_string(), "b".to_string(), "c".to_string()]),
            " "
        ),
        Some(("ping".to_string(), "a b c".to_string()))
    );
    assert_eq!(
        markup_tree::convert::convert_joined("ping", &Some(Vec::new()), " "),
        None
    );
}

#[test]
fn escape_helpers_match_contracts() {
    assert_eq!(markup_tree::escape::escape_text("<b>&\"'</b>"), "&lt;b&gt;&amp;\"'&lt;/b&gt;");
    assert_eq!(markup_tree::escape::escape_attr("a&b\"c<d>e"), "a&amp;b&quot;c&lt;d>e");
    assert_eq!(markup_tree::escape::escape_text(""), "");
}

#[test]
fn budget_exactly_sufficient_succeeds_then_is_spent() {
    let mut a = Anchor::default();
    a.href = Some("x".to_string());
    a.children = Some(vec![ChildKind::Text("hi".to_string())]);
    // Exactly five appends: "<a", " href=\"x\"", ">", "hi", "</a>".
    let mut sink = Sink::failing_after(5);
    assert!(a.write(&mut sink).is_ok());
    assert_eq!(sink.text_string(), "<a href=\"x\">hi</a>");
    // The budget is now spent: the very next append is refused.
    assert_eq!(sink.append("x"), Err(Error::SinkWriteFailure));
}

#[test]
fn budget_one_short_fails_on_the_last_append() {
    let mut a = Anchor::default();
    a.href = Some("x".to_string());
    a.children = Some(vec![ChildKind::Text("hi".to_string())]);
    let mut sink = Sink::failing_after(4);
    assert_eq!(a.write(&mut sink), Err(Error::SinkWriteFailure));
    assert_eq!(sink.text_string(), "<a href=\"x\">hi");
}

#[test]
fn write_xml_and_try_to_string_never_fail() {
    let mut a = Anchor::default();
    a.href = Some("u".to_string());
    assert_eq!(a.try_to_string(), Ok("<a href=\"u\"/>".to_string()));
    let mut writer = markup_tree::xml::writer_new();
    assert_eq!(a.write_xml(&mut writer), Ok(()));
}
