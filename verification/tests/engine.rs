use styout::css;
use styout::css::{Color, Selector, SimpleSelector, Unit, Value};
use styout::dom;
use styout::dom::{AttrMap, Node, NodeType};
use styout::html;
use styout::layout;
use styout::layout::{BoxType, Display};
use styout::parser::Parser;
use styout::style;
use styout::style::{PropertyMap, StyledNode};
use styout::text::string_to_chars;

fn attrs(pairs: &[(&str, &str)]) -> AttrMap {
    let mut m = AttrMap::new();
    for (k, v) in pairs {
        m.insert(k.to_string(), v.to_string());
    }
    m
}

fn styled<'a>(node: &'a Node, props: &[(&str, Value)], children: Vec<StyledNode<'a>>) -> StyledNode<'a> {
    let mut pm = PropertyMap::new();
    for (k, v) in props {
        pm.insert(k.to_string(), v.clone());
    }
    StyledNode { node, specified_values: pm, children }
}

fn block() -> Value {
    Value::Keyword("block".to_string())
}

fn none_kw() -> Value {
    Value::Keyword("none".to_string())
}

// ---- scanner ----

#[test]
fn scanner_basics() {
    let mut p = Parser::new(string_to_chars("ab c"));
    assert!(!p.eof());
    assert_eq!(p.next_char(), 'a');
    assert!(p.starts_with("ab"));
    assert!(!p.starts_with("ab d"));
    assert_eq!(p.consume_char(), 'a');
    assert_eq!(p.consume_char(), 'b');
    p.consume_whitespace();
    assert_eq!(p.next_char(), 'c');
    assert_eq!(p.consume_char(), 'c');
    assert!(p.eof());
    assert!(!p.starts_with("c"));
}

#[test]
fn scanner_is_character_aligned() {
    let mut p = Parser::new(string_to_chars("héllo"));
    assert_eq!(p.consume_char(), 'h');
    assert_eq!(p.consume_char(), 'é');
    assert_eq!(p.next_char(), 'l');
}

// ---- stylesheet parser ----

#[test]
fn css_single_rule() {
    let sheet = css::parse(".foo { color: #000000; }".to_string()).unwrap();
    assert_eq!(sheet.rules.len(), 1);
    let rule = &sheet.rules[0];
    assert_eq!(rule.selectors.len(), 1);
    assert_eq!(
        rule.selectors[0],
        Selector::Simple(SimpleSelector {
            tag_name: None,
            id: None,
            class: vec!["foo".to_string()],
        })
    );
    assert_eq!(rule.declarations.len(), 1);
    assert_eq!(rule.declarations[0].name, "color");
    assert_eq!(
        rule.declarations[0].value,
        Value::ColorValue(Color { r: 0, g: 0, b: 0, a: 255 })
    );
}

#[test]
fn css_hex_color_exact() {
    let sheet = css::parse("p { color: #ff00aa; }".to_string()).unwrap();
    assert_eq!(
        sheet.rules[0].declarations[0].value,
        Value::ColorValue(Color { r: 255, g: 0, b: 170, a: 255 })
    );
}

#[test]
fn css_lengths_and_units() {
    let sheet =
        css::parse("div { width: 500px; height: 23.5%; size: 1.5em; pad: 7Q; }".to_string())
            .unwrap();
    let ds = &sheet.rules[0].declarations;
    assert_eq!(ds[0].value, Value::Length("500".to_string(), Unit::Px));
    assert_eq!(ds[1].value, Value::Length("23.5".to_string(), Unit::Percentage));
    assert_eq!(ds[2].value, Value::Length("1.5".to_string(), Unit::Em));
    assert_eq!(ds[3].value, Value::Length("7".to_string(), Unit::UnknownUnit));
}

#[test]
fn css_unit_is_case_insensitive() {
    let sheet = css::parse("div { width: 10PX; height: 2EM; }".to_string()).unwrap();
    let ds = &sheet.rules[0].declarations;
    assert_eq!(ds[0].value, Value::Length("10".to_string(), Unit::Px));
    assert_eq!(ds[1].value, Value::Length("2".to_string(), Unit::Em));
}

#[test]
fn css_keyword_value() {
    let sheet = css::parse("#someId { position: absolute; }".to_string()).unwrap();
    let rule = &sheet.rules[0];
    assert_eq!(
        rule.selectors[0],
        Selector::Simple(SimpleSelector {
            tag_name: None,
            id: Some("someId".to_string()),
            class: vec![],
        })
    );
    assert_eq!(rule.declarations[0].value, Value::Keyword("absolute".to_string()));
}

#[test]
fn css_comments_are_skipped() {
    let source = "
        .foo,
        h1 {
          color: #000000;
        }

        /*
          a comment
        */ /* and another one */ /*
          a third in a row
        */

        div { /* inside a block */
          width: 500px;
        }

        #someId { position: /* a really annoying comment */ absolute; }
    ";
    let sheet = css::parse(source.to_string()).unwrap();
    assert_eq!(sheet.rules.len(), 3);
    assert_eq!(sheet.rules[1].declarations[0].name, "width");
    assert_eq!(sheet.rules[2].declarations[0].value, Value::Keyword("absolute".to_string()));
}

#[test]
fn css_selector_list_sorted_by_specificity() {
    // .foo has specificity (0,1,0), h1 has (0,0,1): the class selector
    // comes first after the parse-time sort.
    let sheet = css::parse(".foo, h1 { color: #000000; }".to_string()).unwrap();
    let sels = &sheet.rules[0].selectors;
    assert_eq!(sels.len(), 2);
    assert_eq!(sels[0].specificity(), (0, 1, 0));
    assert_eq!(sels[1].specificity(), (0, 0, 1));
    // The sort is stable: equal specificities keep source order.
    let sheet2 = css::parse(".a, .b { color: #000000; }".to_string()).unwrap();
    let sels2 = &sheet2.rules[0].selectors;
    match (&sels2[0], &sels2[1]) {
        (Selector::Simple(a), Selector::Simple(b)) => {
            assert_eq!(a.class, vec!["a".to_string()]);
            assert_eq!(b.class, vec!["b".to_string()]);
        }
    }
}

#[test]
fn css_universal_selector_star() {
    let sheet = css::parse("* { margin: auto; }".to_string()).unwrap();
    assert_eq!(sheet.rules[0].selectors[0].specificity(), (0, 0, 0));
}

#[test]
fn css_malformed_is_fatal() {
    // missing colon
    assert!(css::parse("div { color red; }".to_string()).is_err());
    // missing semicolon
    assert!(css::parse("div { color: red }".to_string()).is_err());
    // unmatched block
    assert!(css::parse("div { color: red;".to_string()).is_err());
    // non-numeric length body: two dots
    assert!(css::parse("div { width: 1.2.3px; }".to_string()).is_err());
    // bad hex digit
    assert!(css::parse("div { color: #12g45z; }".to_string()).is_err());
    // truncated color
    assert!(css::parse("div { color: #1234; }".to_string()).is_err());
    // unterminated comment
    assert!(css::parse("div { color: red; } /* open".to_string()).is_err());
}

#[test]
fn css_pretty_print_exact() {
    let sheet = css::parse(".a{color:#0000ff;}".to_string()).unwrap();
    assert_eq!(sheet.pretty_print(), ".a {\n  color: #0000ff;\n}\n");
    let sheet2 = css::parse("h1, #x.y { width: 2.5em; }".to_string()).unwrap();
    assert_eq!(sheet2.pretty_print(), "#x.y, h1 {\n  width: 2.5em;\n}\n");
}

// ---- specificity ordering (id weighs most, then class, then tag) ----

#[test]
fn specificity_counts() {
    // #a has one id; .b.c has two classes; #a.b.c has both.
    let id_sel = Selector::Simple(SimpleSelector {
        tag_name: None,
        id: Some("a".to_string()),
        class: vec![],
    });
    let class_sel = Selector::Simple(SimpleSelector {
        tag_name: None,
        id: None,
        class: vec!["b".to_string(), "c".to_string()],
    });
    assert_eq!(id_sel.specificity(), (1, 0, 0));
    assert_eq!(class_sel.specificity(), (0, 2, 0));
    // `#a` > `.b.c`: the id count decides first.
    assert!(css::specificity_lt(class_sel.specificity(), id_sel.specificity()));
    assert!(!css::specificity_lt(id_sel.specificity(), class_sel.specificity()));
    // `#a.b.c` (1,2,0) also outweighs `.b.c.d.e` (0,4,0): the comparison is
    // lexicographic with the id first, however many classes the other has.
    assert!(css::specificity_lt((0, 4, 0), (1, 2, 0)));
    // Ties on id and class fall to the tag count.
    assert!(css::specificity_lt((0, 1, 0), (0, 1, 1)));
}

// ---- document tree ----

#[test]
fn dom_constructors_and_queries() {
    let comment_node = dom::comment("this is a comment".to_string());
    let text_node = dom::text("here is some text".to_string());
    let element_node = dom::elem(
        "p".to_string(),
        attrs(&[("id", "someId"), ("class", "element-class")]),
        vec![comment_node, text_node],
    );
    match &element_node.node_type {
        NodeType::Element(e) => {
            assert_eq!(e.tag_name, "p");
            assert_eq!(e.get_attribute("id"), Some(&"someId".to_string()));
            assert_eq!(e.get_attribute("missing"), None);
            assert_eq!(e.id(), Some(&"someId".to_string()));
            assert_eq!(e.classes(), vec!["element-class".to_string()]);
        },
        _ => panic!("expected an element"),
    }
    assert_eq!(element_node.children.len(), 2);
}

#[test]
fn dom_attr_map_last_write_wins() {
    let mut m = AttrMap::new();
    m.insert("id".to_string(), "a".to_string());
    m.insert("class".to_string(), "c".to_string());
    m.insert("id".to_string(), "b".to_string());
    assert_eq!(m.len(), 2);
    assert_eq!(m.get("id"), Some(&"b".to_string()));
    assert_eq!(m.get("class"), Some(&"c".to_string()));
}

#[test]
fn dom_classes_split_on_whitespace() {
    let class_tokens = |value: &str| -> Vec<String> {
        match dom::elem("p".to_string(), attrs(&[("class", value)]), vec![]).node_type {
            NodeType::Element(e) => e.classes(),
            _ => unreachable!(),
        }
    };
    assert_eq!(class_tokens("a b"), vec!["a".to_string(), "b".to_string()]);
    // any whitespace separates, and runs of it yield no empty tokens
    assert_eq!(class_tokens("a\tb"), vec!["a".to_string(), "b".to_string()]);
    assert_eq!(class_tokens("  a  b\n"), vec!["a".to_string(), "b".to_string()]);
    assert_eq!(class_tokens("   "), Vec::<String>::new());
    let e3 = match dom::elem("p".to_string(), AttrMap::new(), vec![]).node_type {
        NodeType::Element(e) => e,
        _ => unreachable!(),
    };
    assert_eq!(e3.classes(), Vec::<String>::new());
}

#[test]
fn style_matching_splits_classes_on_any_whitespace() {
    let div = match dom::elem("div".to_string(), attrs(&[("class", "a\tb")]), vec![]).node_type {
        NodeType::Element(e) => e,
        _ => unreachable!(),
    };
    let dot_a = Selector::Simple(SimpleSelector {
        tag_name: None,
        id: None,
        class: vec!["a".to_string()],
    });
    let dot_b = Selector::Simple(SimpleSelector {
        tag_name: None,
        id: None,
        class: vec!["b".to_string()],
    });
    assert!(style::matches(&div, &dot_a));
    assert!(style::matches(&div, &dot_b));
}

// ---- markup parser ----

#[test]
fn html_basic_tree() {
    let root = html::parse("<body><div class=\"foo\">hello world</div></body>".to_string())
        .unwrap();
    match &root.node_type {
        NodeType::Document(d) => assert_eq!(d.stylesheets().len(), 0),
        _ => panic!("expected a document root"),
    }
    assert_eq!(root.children.len(), 1);
    let body = &root.children[0];
    match &body.node_type {
        NodeType::Element(e) => assert_eq!(e.tag_name, "body"),
        _ => panic!("expected an element"),
    }
    let div = &body.children[0];
    match &div.node_type {
        NodeType::Element(e) => {
            assert_eq!(e.tag_name, "div");
            assert_eq!(e.get_attribute("class"), Some(&"foo".to_string()));
        },
        _ => panic!("expected an element"),
    }
    match &div.children[0].node_type {
        NodeType::Text(t) => assert_eq!(t, "hello world"),
        _ => panic!("expected a text node"),
    }
}

#[test]
fn html_comments_and_quotes() {
    let root = html::parse(
        "<div a=\"x\" b='y'><!-- a comment -->text</div>".to_string(),
    )
    .unwrap();
    let div = &root.children[0];
    match &div.node_type {
        NodeType::Element(e) => {
            assert_eq!(e.get_attribute("a"), Some(&"x".to_string()));
            assert_eq!(e.get_attribute("b"), Some(&"y".to_string()));
        },
        _ => panic!("expected an element"),
    }
    match &div.children[0].node_type {
        NodeType::Comment(c) => assert_eq!(c, " a comment "),
        _ => panic!("expected a comment"),
    }
    match &div.children[1].node_type {
        NodeType::Text(t) => assert_eq!(t, "text"),
        _ => panic!("expected a text node"),
    }
}

#[test]
fn html_duplicate_attribute_last_write_wins() {
    let root = html::parse("<div id=\"a\" id=\"b\"></div>".to_string()).unwrap();
    match &root.children[0].node_type {
        NodeType::Element(e) => assert_eq!(e.get_attribute("id"), Some(&"b".to_string())),
        _ => panic!("expected an element"),
    }
}

#[test]
fn html_mismatched_close_tag_is_fatal() {
    assert!(html::parse("<div><span></div>".to_string()).is_err());
}

#[test]
fn html_unterminated_input_is_fatal() {
    assert!(html::parse("<div>".to_string()).is_err());
    assert!(html::parse("<!-- open".to_string()).is_err());
    assert!(html::parse("<style>.a{color:#ff0000;}".to_string()).is_err());
}

#[test]
fn html_embedded_stylesheet_harvested() {
    let root = html::parse(
        "<html><style>.a{color:#ff0000;}</style><body class=\"a\">x</body></html>".to_string(),
    )
    .unwrap();
    let sheets = match &root.node_type {
        NodeType::Document(d) => d.stylesheets(),
        _ => panic!("expected a document root"),
    };
    assert_eq!(sheets.len(), 1);
    assert_eq!(sheets[0].rules.len(), 1);
    assert_eq!(
        sheets[0].rules[0].selectors[0],
        Selector::Simple(SimpleSelector {
            tag_name: None,
            id: None,
            class: vec!["a".to_string()],
        })
    );
    // the <style> element itself appears nowhere in the tree
    fn no_style(n: &Node) -> bool {
        let own = match &n.node_type {
            NodeType::Element(e) => e.tag_name != "style",
            _ => true,
        };
        own && n.children.iter().all(no_style)
    }
    assert!(no_style(&root));
    // and the harvested rule matches the body element
    let html_el = &root.children[0];
    let body = &html_el.children[0];
    match &body.node_type {
        NodeType::Element(e) => {
            assert_eq!(e.tag_name, "body");
            let m = style::match_rule(e, &sheets[0].rules[0]);
            assert!(m.is_some());
            assert_eq!(m.unwrap().0, (0, 1, 0));
        },
        _ => panic!("expected the body element"),
    }
}

#[test]
fn html_style_element_with_bad_css_is_fatal() {
    assert!(html::parse("<html><style>.a{color}</style></html>".to_string()).is_err());
}

#[test]
fn html_round_trip_of_element_only_tree() {
    let source = "<html><head></head><body><div id=\"x\" class=\"a b\"><p></p></div><em></em></body></html>";
    let first = html::parse(source.to_string()).unwrap();
    let printed = first.pretty_print(0);
    let second = html::parse(printed.clone()).unwrap();
    assert_eq!(first, second);
    // and printing is idempotent on the structure
    assert_eq!(second.pretty_print(0), printed);
}

#[test]
fn node_pretty_print_exact() {
    assert_eq!(dom::text("hi".to_string()).pretty_print(1), "  hi\n");
    let el = dom::elem("div".to_string(), attrs(&[("id", "x")]), vec![]);
    assert_eq!(el.pretty_print(0), "<div id=\"x\">\n</div>\n");
}

// ---- style resolution ----

#[test]
fn style_cascade_id_beats_class_regardless_of_order() {
    let sheet = css::parse(".x{color:#111111;} #y{color:#222222;}".to_string()).unwrap();
    let elem_node = dom::elem("div".to_string(), attrs(&[("class", "x"), ("id", "y")]), vec![]);
    let styled_tree = style::style_tree(&elem_node, &sheet);
    assert_eq!(
        styled_tree.value("color"),
        Some(Value::ColorValue(Color { r: 0x22, g: 0x22, b: 0x22, a: 255 }))
    );
    // the same with the rules swapped: source order must not matter
    let sheet2 = css::parse("#y{color:#222222;} .x{color:#111111;}".to_string()).unwrap();
    let styled_tree2 = style::style_tree(&elem_node, &sheet2);
    assert_eq!(
        styled_tree2.value("color"),
        Some(Value::ColorValue(Color { r: 0x22, g: 0x22, b: 0x22, a: 255 }))
    );
}

#[test]
fn style_equal_specificity_later_rule_wins() {
    let sheet = css::parse(".x{color:#111111;} .x{color:#333333;}".to_string()).unwrap();
    let elem_node = dom::elem("div".to_string(), attrs(&[("class", "x")]), vec![]);
    let styled_tree = style::style_tree(&elem_node, &sheet);
    assert_eq!(
        styled_tree.value("color"),
        Some(Value::ColorValue(Color { r: 0x33, g: 0x33, b: 0x33, a: 255 }))
    );
}

#[test]
fn style_matching_respects_tag_id_class() {
    let div = match dom::elem(
        "div".to_string(),
        attrs(&[("id", "main"), ("class", "test wide")]),
        vec![],
    )
    .node_type
    {
        NodeType::Element(e) => e,
        _ => unreachable!(),
    };
    let sel = |t: Option<&str>, i: Option<&str>, c: &[&str]| {
        Selector::Simple(SimpleSelector {
            tag_name: t.map(|s| s.to_string()),
            id: i.map(|s| s.to_string()),
            class: c.iter().map(|s| s.to_string()).collect(),
        })
    };
    assert!(style::matches(&div, &sel(Some("div"), None, &[])));
    assert!(!style::matches(&div, &sel(Some("p"), None, &[])));
    assert!(style::matches(&div, &sel(None, Some("main"), &[])));
    assert!(!style::matches(&div, &sel(None, Some("other"), &[])));
    assert!(style::matches(&div, &sel(None, None, &["test", "wide"])));
    assert!(!style::matches(&div, &sel(None, None, &["test", "narrow"])));
    assert!(style::matches(&div, &sel(Some("div"), Some("main"), &["wide"])));
}

#[test]
fn style_tree_mirrors_document_tree() {
    let sheet = css::parse(".foo { color: #000000; }".to_string()).unwrap();
    let tree = html::parse("<body><div class=\"foo\">hello</div></body>".to_string()).unwrap();
    let styled_tree = style::style_tree(&tree, &sheet);
    assert_eq!(styled_tree.children.len(), 1);
    let body = &styled_tree.children[0];
    assert_eq!(body.value("color"), None);
    let div = &body.children[0];
    assert_eq!(
        div.value("color"),
        Some(Value::ColorValue(Color { r: 0, g: 0, b: 0, a: 255 }))
    );
    let text = &div.children[0];
    assert_eq!(text.children.len(), 0);
    assert_eq!(text.value("color"), None);
}

#[test]
fn style_first_matching_selector_fixes_specificity() {
    // Both selectors of the rule match the element; the pre-sorted selector
    // list makes the higher-specificity one come first, and its specificity
    // is the one the matched rule carries.
    let sheet = css::parse("div, #main { color: #010203; }".to_string()).unwrap();
    let div = match dom::elem("div".to_string(), attrs(&[("id", "main")]), vec![]).node_type {
        NodeType::Element(e) => e,
        _ => unreachable!(),
    };
    let m = style::match_rule(&div, &sheet.rules[0]).unwrap();
    assert_eq!(m.0, (1, 0, 0));
}

#[test]
fn styled_node_display_defaults_to_inline() {
    let n = dom::text("x".to_string());
    let sn = styled(&n, &[], vec![]);
    assert_eq!(sn.display(), Display::Inline);
    let sb = styled(&n, &[("display", block())], vec![]);
    assert_eq!(sb.display(), Display::Block);
    let sn2 = styled(&n, &[("display", none_kw())], vec![]);
    assert_eq!(sn2.display(), Display::NoDisplay);
    let sn3 = styled(&n, &[("display", Value::Keyword("flex".to_string()))], vec![]);
    assert_eq!(sn3.display(), Display::Inline);
}

// ---- layout ----

fn box_is_anonymous(b: &layout::LayoutBox) -> bool {
    matches!(b.box_type, BoxType::AnonymousBlock)
}

fn box_is_block(b: &layout::LayoutBox) -> bool {
    matches!(b.box_type, BoxType::BlockNode(_))
}

fn box_is_inline(b: &layout::LayoutBox) -> bool {
    matches!(b.box_type, BoxType::InlineNode(_))
}

#[test]
fn layout_anonymous_block_coalescing() {
    // a block parent with children of display [Inline, Inline, Block, Inline]
    // gets exactly [Anonymous(2), Block, Anonymous(1)].
    let n = dom::elem("div".to_string(), AttrMap::new(), vec![]);
    let c1 = styled(&n, &[], vec![]);
    let c2 = styled(&n, &[], vec![]);
    let c3 = styled(&n, &[("display", block())], vec![]);
    let c4 = styled(&n, &[], vec![]);
    let parent = styled(&n, &[("display", block())], vec![c1, c2, c3, c4]);
    let root = layout::build_layout_tree(&parent).unwrap();
    assert!(box_is_block(&root));
    assert_eq!(root.children.len(), 3);
    assert!(box_is_anonymous(&root.children[0]));
    assert_eq!(root.children[0].children.len(), 2);
    assert!(box_is_inline(&root.children[0].children[0]));
    assert!(box_is_inline(&root.children[0].children[1]));
    assert!(box_is_block(&root.children[1]));
    assert!(box_is_anonymous(&root.children[2]));
    assert_eq!(root.children[2].children.len(), 1);
    assert!(box_is_inline(&root.children[2].children[0]));
}

#[test]
fn layout_inline_parent_needs_no_anonymous_box() {
    let n = dom::elem("span".to_string(), AttrMap::new(), vec![]);
    let c1 = styled(&n, &[], vec![]);
    let c2 = styled(&n, &[], vec![]);
    let parent = styled(&n, &[], vec![c1, c2]);
    let root = layout::build_layout_tree(&parent).unwrap();
    assert!(box_is_inline(&root));
    assert_eq!(root.children.len(), 2);
    assert!(box_is_inline(&root.children[0]));
    assert!(box_is_inline(&root.children[1]));
}

#[test]
fn layout_display_none_subtree_contributes_no_boxes() {
    let n = dom::elem("div".to_string(), AttrMap::new(), vec![]);
    // the hidden child has descendants of every display; none of them count
    let grandchild_block = styled(&n, &[("display", block())], vec![]);
    let grandchild_inline = styled(&n, &[], vec![]);
    let hidden = styled(
        &n,
        &[("display", none_kw())],
        vec![grandchild_block, grandchild_inline],
    );
    let visible = styled(&n, &[("display", block())], vec![]);
    let parent = styled(&n, &[("display", block())], vec![hidden, visible]);
    let root = layout::build_layout_tree(&parent).unwrap();
    assert_eq!(root.children.len(), 1);
    assert!(box_is_block(&root.children[0]));
    assert_eq!(root.children[0].children.len(), 0);
}

#[test]
fn layout_root_display_none_is_an_error() {
    let n = dom::elem("div".to_string(), AttrMap::new(), vec![]);
    let parent = styled(&n, &[("display", none_kw())], vec![]);
    assert!(layout::build_layout_tree(&parent).is_err());
}

#[test]
fn layout_dimensions_stay_zeroed() {
    let n = dom::elem("div".to_string(), AttrMap::new(), vec![]);
    let parent = styled(&n, &[("display", block())], vec![]);
    let root = layout::build_layout_tree(&parent).unwrap();
    assert_eq!(root.dimensions.content.x, 0);
    assert_eq!(root.dimensions.content.width, 0);
    assert_eq!(root.dimensions.padding.left, 0);
    assert_eq!(root.dimensions.border.top, 0);
    assert_eq!(root.dimensions.margin.bottom, 0);
}

#[test]
fn layout_pretty_print_exact() {
    let n = dom::elem("div".to_string(), AttrMap::new(), vec![]);
    let c1 = styled(&n, &[], vec![]);
    let parent = styled(&n, &[("display", block())], vec![c1]);
    let root = layout::build_layout_tree(&parent).unwrap();
    assert_eq!(
        root.pretty_print(0),
        "BlockNode\n  AnonymousBlock\n    InlineNode\n"
    );
}

// ---- the whole pipeline ----

#[test]
fn pipeline_from_markup_to_boxes() {
    let source = "
        <html>
          <style>
            div { display: block; }
            .hide { display: none; }
          </style>
          <body>
            <div class=\"hide\"><p>invisible</p></div>
            <div>shown</div>
          </body>
        </html>";
    let tree = html::parse(source.to_string()).unwrap();
    let sheets = match &tree.node_type {
        NodeType::Document(d) => d.stylesheets(),
        _ => panic!("expected a document"),
    };
    assert_eq!(sheets.len(), 1);
    let html_el = &tree.children[0];
    let styled_tree = style::style_tree(html_el, &sheets[0]);
    let body = &styled_tree.children[0];
    let root = layout::build_layout_tree(body).unwrap();
    // only the second div yields a box, and the body's own box is inline
    assert!(box_is_inline(&root));
    assert_eq!(root.children.len(), 1);
    assert!(box_is_block(&root.children[0]));
}
