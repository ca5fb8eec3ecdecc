use frame_codec::annotated::AnnotatedField;
use frame_codec::error::{DecodeError, XmlError};
use frame_codec::frame_645::Frame645;
use frame_codec::frame_fun::FrameFun;
use frame_codec::interpreter::{DecodeSettings, FrameAnalisyic};
use frame_codec::length_rule::{
    evaluate_rule, parse_length_rule, rule_from, LengthRule, Operand, Operator, ResolvedLength,
    SubItem,
};
use frame_codec::schema::XmlElement;
use frame_codec::schema_find::{Cache, QframeConfig};
use frame_codec::codec::UpdateError;
use frame_codec::schema_update::{ProtocolConfigManager, ProtocolKind};
use frame_codec::xml_io::{
    attributes_from, document_bytes, error_of, own_error, parse_document, read_tokens,
    tree_from_tokens, Failure, XmlToken,
};

const SCHEMA: &str = r#"<?xml version="1.0" encoding="UTF-8"?>
<config protocol="DLT/645-2007" region="南网">
    <!-- energy -->
    <dataItem id="00010000">
        <name>正向有功总电能</name>
        <length>4</length>
        <type>BCD</type>
        <decimal>2</decimal>
    </dataItem>
    <dataItem id="0001FF00">
        <name>正向有功电能数据块</name>
        <item>00010000</item>
        <item> 00010100 </item>
    </dataItem>
    <dataItem id="00010100">
        <name>正向有功费率1电能</name>
        <length>4</length>
        <type>BCD</type>
        <decimal>2</decimal>
    </dataItem>
    <group region="云南,广东" dir="1">
        <dataItem id="04000101">
            <name>日期及星期</name>
            <length>4</length>
            <type>TIME</type>
            <format>WWDDMMYY</format>
        </dataItem>
    </group>
    <dataItem id="04000401" protocol="dlt/645-2007, CSG13">
        <name>通信地址 &amp; 表号</name>
        <type>ASCII</type>
    </dataItem>
    <dataItem id="04000501">
        <name>状态字</name>
        <length>1</length>
        <type>ENUM</type>
        <value key="00">正常</value>
        <value key="01">告警</value>
    </dataItem>
</config>
"#;

fn loaded() -> QframeConfig {
    let mut repo = QframeConfig::new();
    assert_eq!(repo.load(SCHEMA.as_bytes(), Some("DLT645.xml".to_string())), Ok(()));
    repo
}

fn text(s: &str) -> Option<String> {
    Some(s.to_string())
}

fn element(name: &str, attributes: &[(&str, &str)], value: Option<&str>, children: Vec<XmlElement>) -> XmlElement {
    XmlElement::new(
        name.to_string(),
        attributes.iter().map(|(k, v)| (k.to_string(), v.to_string())).collect(),
        value.map(|v| v.to_string()),
        children,
    )
}

fn same_tree(a: &XmlElement, b: &XmlElement) -> bool {
    a.name == b.name
        && a.attributes == b.attributes
        && a.value == b.value
        && a.children.len() == b.children.len()
        && a.children.iter().zip(b.children.iter()).all(|(x, y)| same_tree(x, y))
}

#[test]
fn a_document_becomes_a_tree() {
    let root = parse_document(SCHEMA.as_bytes()).unwrap().unwrap();
    assert_eq!(root.name, "config");
    assert_eq!(root.attributes, vec![("protocol".to_string(), "DLT/645-2007".to_string()), ("region".to_string(), "南网".to_string())]);
    assert_eq!(root.children.len(), 6);
    let first = &root.children[0];
    assert_eq!(first.name, "dataItem");
    assert_eq!(first.get_attribute("id").map(|s| s.as_str()), Some("00010000"));
    assert_eq!(first.get_child_text("name"), text("正向有功总电能"));
    assert_eq!(first.get_child_text("length"), text("4"));
    assert_eq!(first.get_child_text("missing"), None);
    assert_eq!(root.children[4].get_child_text("name"), text("通信地址 & 表号"));
    assert_eq!(root.children[3].children[0].get_attribute("id").map(|s| s.as_str()), Some("04000101"));
}

#[test]
fn empty_element_tags_are_left_out() {
    let root = parse_document(b"<a><b/><c>x</c></a>").unwrap().unwrap();
    assert_eq!(root.children.len(), 1);
    assert_eq!(root.children[0].name, "c");
    assert_eq!(root.children[0].value, text("x"));
}

#[test]
fn a_document_without_a_root_is_no_tree() {
    assert!(parse_document(b"").unwrap().is_none());
    assert!(parse_document(b"<!-- nothing -->").unwrap().is_none());
    assert!(parse_document(b"<a>").unwrap().is_none());
}

#[test]
fn malformed_documents_are_refused() {
    assert_eq!(parse_document(b"<a></b>").err(), Some(XmlError::Syntax));
    assert_eq!(parse_document(b"<a x=\"1\" x=\"2\"></a>").err(), Some(XmlError::Attribute));
    assert_eq!(parse_document(b"<a x=1></a>").err(), Some(XmlError::Attribute));
    assert_eq!(parse_document(b"<a>&bogus;</a>").err(), Some(XmlError::Escape));
    assert_eq!(parse_document(&[b'<', b'a', b'>', 0xFF, 0xFE, b'<', b'/', b'a', b'>']).err(), Some(XmlError::Encoding));
}

#[test]
fn tokens_build_the_tree_by_their_order() {
    let tokens = read_tokens(b"<a k=\"v\"> text <b>inner</b></a>").unwrap();
    assert_eq!(tokens.len(), 6);
    assert!(matches!(&tokens[0], XmlToken::Start { name, attributes } if name == "a" && attributes.len() == 1));
    assert!(matches!(&tokens[1], XmlToken::Text(t) if t == "text"));
    assert!(matches!(&tokens[5], XmlToken::End));
    let root = tree_from_tokens(&tokens).unwrap();
    assert!(same_tree(
        &root,
        &element("a", &[("k", "v")], Some("text"), vec![element("b", &[], Some("inner"), vec![])])
    ));
    assert!(tree_from_tokens(&vec![XmlToken::End, XmlToken::Text("x".to_string()), XmlToken::Other]).is_none());
    let two = vec![
        XmlToken::Start { name: "a".to_string(), attributes: vec![] },
        XmlToken::End,
        XmlToken::Start { name: "b".to_string(), attributes: vec![] },
        XmlToken::End,
    ];
    assert_eq!(tree_from_tokens(&two).unwrap().name, "b");
}

#[test]
fn a_tree_is_written_with_four_spaces_a_level() {
    let tree = element(
        "config",
        &[("protocol", "DLT/645"), ("note", "a<b & \"c\"")],
        Some("top"),
        vec![
            element("item", &[("id", "01")], None, vec![element("name", &[], Some("x & y"), vec![])]),
            element("leaf", &[], Some("text"), vec![]),
            element("empty", &[], None, vec![]),
        ],
    );
    let bytes = document_bytes(&tree).unwrap();
    let expected = "<config protocol=\"DLT/645\" note=\"a&lt;b &amp; &quot;c&quot;\">\n    top\n    <item id=\"01\">\n        <name>x & y</name>\n    </item>\n    <leaf>text</leaf>\n    <empty></empty>\n</config>\n";
    assert_eq!(String::from_utf8(bytes).unwrap(), expected);
    assert_eq!(String::from_utf8(document_bytes(&element("a", &[], None, vec![])).unwrap()).unwrap(), "<a></a>");
}

#[test]
fn a_written_tree_is_read_back() {
    let root = parse_document(SCHEMA.as_bytes()).unwrap().unwrap();
    let bytes = document_bytes(&root).unwrap();
    let text = String::from_utf8(bytes.clone()).unwrap();
    assert!(text.starts_with("<config protocol=\"DLT/645-2007\" region=\"南网\">\n    <dataItem id=\"00010000\">\n        <name>正向有功总电能</name>\n"));
    assert!(text.ends_with("</config>\n"));
    let again = parse_document(text.replace(" & ", " &amp; ").as_bytes()).unwrap().unwrap();
    assert!(same_tree(&again, &root));
}

#[test]
fn save_needs_a_loaded_schema() {
    assert_eq!(QframeConfig::new().save_to_bytes(), Ok(None));
    let repo = loaded();
    assert_eq!(repo.config_path, text("DLT645.xml"));
    assert!(repo.save_to_bytes().unwrap().unwrap().starts_with(b"<config"));
    let mut broken = QframeConfig::new();
    assert_eq!(broken.load(b"<a></b>", None), Err(XmlError::Syntax));
    assert!(broken.get_config().is_none());
}

#[test]
fn element_accessors() {
    let node = element(
        "n",
        &[("a", "1"), ("b", "2"), ("a", "3")],
        Some("v"),
        vec![
            element("item", &[], Some("i1"), vec![]),
            element("group", &[], None, vec![element("item", &[], Some("i2"), vec![]), element("other", &[], None, vec![])]),
            element("item", &[], Some("i3"), vec![]),
        ],
    );
    assert_eq!(node.get_attribute("a").map(|s| s.as_str()), Some("3"));
    assert_eq!(node.get_attribute("b").map(|s| s.as_str()), Some("2"));
    assert_eq!(node.get_attribute("c"), None);
    assert_eq!(node.get_value(), text("v"));
    assert_eq!(node.get_child("group").map(|c| c.children.len()), Some(2));
    assert!(node.get_child("nothing").is_none());
    assert_eq!(node.get_children().len(), 3);
    let items: Vec<Option<String>> = node.get_items("item").iter().map(|i| i.value.clone()).collect();
    assert_eq!(items, vec![text("i1"), text("i2"), text("i3")]);
    assert!(node.get_items("name").is_empty());
    assert!(same_tree(&node.duplicate(), &node));
}

#[test]
fn update_value_sets_or_adds_a_child() {
    let mut node = element("n", &[], None, vec![element("length", &[("u", "1")], Some("4"), vec![])]);
    node.update_value("length", "8".to_string());
    assert_eq!(node.children.len(), 1);
    assert_eq!(node.get_child_text("length"), text("8"));
    assert_eq!(node.children[0].attributes.len(), 1);
    node.update_value("name", "x".to_string());
    assert_eq!(node.children.len(), 2);
    assert_eq!(node.children[1].name, "name");
    assert_eq!(node.get_child_text("name"), text("x"));
}

#[test]
fn merged_attributes_leave_the_inherited_id_out() {
    let node = element("n", &[("region", "云南"), ("id", "own")], None, vec![]);
    let inherited = vec![
        ("id".to_string(), "parent".to_string()),
        ("protocol".to_string(), "P".to_string()),
        ("region".to_string(), "南网".to_string()),
    ];
    let merged = QframeConfig::merge_attributes(&node, &inherited);
    let found = |name: &str| merged.iter().rev().find(|(k, _)| k == name).map(|(_, v)| v.as_str());
    assert_eq!(found("id"), Some("own"));
    assert_eq!(found("protocol"), Some("P"));
    assert_eq!(found("region"), Some("云南"));
    let plain = element("n", &[], None, vec![]);
    let merged = QframeConfig::merge_attributes(&plain, &inherited);
    assert!(merged.iter().all(|(k, _)| k != "id"));
    assert_eq!(merged.len(), 2);
}

#[test]
fn validity_follows_protocol_region_and_direction() {
    let attrs = |list: &[(&str, &str)]| -> Vec<(String, String)> {
        list.iter().map(|(k, v)| (k.to_string(), v.to_string())).collect()
    };
    let a = attrs(&[("protocol", "dlt/645-2007 , CSG13"), ("region", "云南, gd"), ("dir", "1")]);
    assert!(QframeConfig::is_valid_data_item_with_attributes(&a, "DLT/645-2007", "云南", None));
    assert!(QframeConfig::is_valid_data_item_with_attributes(&a, "csg13", "\"GD\"", Some(1)));
    assert!(!QframeConfig::is_valid_data_item_with_attributes(&a, "csg13", "gd", Some(0)));
    assert!(!QframeConfig::is_valid_data_item_with_attributes(&a, "csg16", "gd", None));
    assert!(!QframeConfig::is_valid_data_item_with_attributes(&a, "csg13", "南网", None));
    let no_dir = attrs(&[("protocol", "P"), ("region", "R")]);
    assert!(QframeConfig::is_valid_data_item_with_attributes(&no_dir, "p", "r", Some(7)));
    let bad_dir = attrs(&[("protocol", "P"), ("region", "R"), ("dir", "x")]);
    assert!(QframeConfig::is_valid_data_item_with_attributes(&bad_dir, "p", "r", Some(0)));
    assert!(!QframeConfig::is_valid_data_item_with_attributes(&bad_dir, "p", "r", Some(1)));
    assert!(!QframeConfig::is_valid_data_item_with_attributes(&attrs(&[("protocol", "P")]), "p", "r", None));
    assert!(!QframeConfig::is_valid_data_item_with_attributes(&attrs(&[("region", "R")]), "p", "r", None));
    assert_eq!(QframeConfig::clean_target_region("\"yn\""), "YN");
    assert_eq!(QframeConfig::generate_cache_key("id", "p", "r"), "id:p:r");
    assert_eq!(QframeConfig::dir_of("255"), 255);
    assert_eq!(QframeConfig::dir_of("256"), 0);
}

#[test]
fn items_are_found_by_identifier_protocol_and_region() {
    let mut repo = loaded();
    let item = repo.get_item("00010000", "DLT/645-2007", "南网", None).unwrap();
    assert_eq!(item.get_child_text("name"), text("正向有功总电能"));
    assert!(repo.get_item("0001ff00", "dlt/645-2007", "南网", None).is_some());
    assert!(repo.get_item("00010000", "CSG13", "南网", None).is_none());
    assert!(repo.get_item("99999999", "DLT/645-2007", "南网", None).is_none());
    assert!(repo.get_item("04000401", "CSG13", "南网", None).is_some());
    assert!(repo.get_template_item("04000401", "CSG16", "南网", None).is_none());
}

#[test]
fn an_item_of_the_fallback_region_is_found_under_any_region() {
    let mut repo = loaded();
    let item = repo.get_item("00010000", "DLT/645-2007", "云南", None).unwrap();
    assert_eq!(item.get_child_text("name"), text("正向有功总电能"));
    let keys: Vec<&str> = repo.config_cache.results.iter().map(|(k, _)| k.as_str()).collect();
    assert_eq!(keys, vec!["00010000:DLT/645-2007:云南"]);
    assert_eq!(repo.walks, 2);
    assert!(repo.get_item("00010000", "DLT/645-2007", "南网", None).is_some());
    assert_eq!(repo.walks, 3);
    assert_eq!(repo.config_cache.results.len(), 2);
}

#[test]
fn an_item_of_another_region_is_not_found_under_the_fallback_region() {
    let mut repo = loaded();
    assert!(repo.get_item("04000101", "DLT/645-2007", "南网", None).is_none());
    assert_eq!(repo.walks, 1);
    assert!(repo.get_item("04000101", "DLT/645-2007", "广东", Some(1)).is_some());
    assert_eq!(repo.walks, 2);
    assert!(repo.get_item("04000101", "DLT/645-2007", "\"云南\"", Some(0)).is_none());
    assert_eq!(repo.walks, 4);
}

#[test]
fn a_repeated_lookup_walks_no_more() {
    let mut repo = loaded();
    let first = repo.get_item("0001FF00", "DLT/645-2007", "云南", None).unwrap();
    let walks = repo.walks;
    let entries = repo.config_cache.results.len();
    for _ in 0..3 {
        let again = repo.get_item("0001FF00", "DLT/645-2007", "云南", None).unwrap();
        assert!(same_tree(&again, &first));
        assert_eq!(repo.walks, walks);
        assert_eq!(repo.config_cache.results.len(), entries);
    }
    assert!(repo.get_item("nothing", "DLT/645-2007", "云南", None).is_none());
    let walks = repo.walks;
    assert!(repo.get_item("nothing", "DLT/645-2007", "云南", None).is_none());
    assert_eq!(repo.walks, walks);
}

#[test]
fn a_repository_without_a_tree_finds_and_remembers_nothing() {
    let mut repo = QframeConfig::new();
    assert!(repo.get_item("00010000", "DLT/645-2007", "南网", None).is_none());
    assert_eq!(repo.walks, 0);
    assert!(repo.config_cache.results.is_empty());
}

#[test]
fn the_cache_keeps_the_last_answer() {
    let mut cache = Cache::new();
    assert!(cache.get("k").is_none());
    cache.insert("k".to_string(), None);
    assert!(matches!(cache.get("k"), Some(None)));
    cache.insert("k".to_string(), Some(element("e", &[], None, vec![])));
    assert!(matches!(cache.get("k"), Some(Some(e)) if e.name == "e"));
    cache.clear();
    assert!(cache.get("k").is_none());
}

#[test]
fn update_replaces_the_first_match_or_adds_to_the_root() {
    let mut repo = loaded();
    assert!(repo.get_item("00010000", "DLT/645-2007", "南网", None).is_some());
    let replacement = element("dataItem", &[("id", "00010000")], None, vec![element("name", &[], Some("新名称"), vec![])]);
    assert!(repo.update_element("00010000", replacement));
    assert!(repo.config_cache.results.is_empty());
    let found = repo.get_item("00010000", "DLT/645-2007", "南网", None).unwrap();
    assert_eq!(found.get_child_text("name"), text("新名称"));
    assert_eq!(repo.get_config().as_ref().unwrap().root.children.len(), 6);
    let added = element("dataItem", &[("id", "0A0B0C0D")], None, vec![]);
    assert!(repo.update_element("0A0B0C0D", added));
    let root = &repo.get_config().as_ref().unwrap().root;
    assert_eq!(root.children.len(), 7);
    assert_eq!(root.children[6].get_attribute("id").map(|s| s.as_str()), Some("0A0B0C0D"));
    let nested = element("dataItem", &[("id", "04000101")], None, vec![]);
    assert!(repo.update_element("04000101", nested));
    let root = &repo.get_config().as_ref().unwrap().root;
    assert_eq!(root.children.len(), 7);
    assert!(root.children[3].children[0].children.is_empty());
    assert!(!QframeConfig::new().update_element("x", element("e", &[], None, vec![])));
}

#[test]
fn all_items_are_listed_in_document_order() {
    let repo = loaded();
    let items = repo.get_all_item();
    let ids: Vec<&str> = items.iter().map(|i| i.item.as_str()).collect();
    assert_eq!(ids, vec!["00010000", "0001FF00", "00010100", "04000401", "04000501"]);
    assert_eq!(items[0].name, text("正向有功总电能"));
    assert_eq!(items[0].protocol, text("DLT/645-2007"));
    assert_eq!(items[0].region, text("南网"));
    assert_eq!(items[0].dir, None);
    assert_eq!(items[3].protocol, text("dlt/645-2007, CSG13"));
    assert!(QframeConfig::new().get_all_item().is_empty());
}

#[test]
fn the_manager_picks_the_repository_by_protocol() {
    let mut manager = ProtocolConfigManager::new();
    manager.dlt645 = Some(loaded());
    assert!(manager.get_config_xml("00010000", "dlt/645-2007", "南网", None).is_some());
    assert!(manager.get_template_element("00010000", "DLT/645-2007", "南网", None).is_some());
    assert!(manager.get_config_xml("00010000", "CSG13", "南网", None).is_none());
    assert!(manager.get_config_xml("00010000", "modbus", "南网", None).is_none());
    assert_eq!(manager.dlt645.as_ref().unwrap().config_cache.results[0].0, "00010000:DLT/645-2007:南网");
    let e = element("dataItem", &[("id", "new")], None, vec![]);
    assert!(manager.update_element("new", "DLT/645", e).is_ok());
    assert!(manager.dlt645.as_ref().unwrap().config_cache.results.is_empty());
    assert_eq!(
        manager.update_element("new", "CSG16", element("e", &[], None, vec![])),
        Err(UpdateError::NotLoaded(ProtocolKind::Csg16))
    );
    assert_eq!(
        manager.update_element("new", "csg13", element("e", &[], None, vec![])),
        Err(UpdateError::NotLoaded(ProtocolKind::Csg13))
    );
    assert_eq!(
        manager.update_element("new", "other", element("e", &[], None, vec![])),
        Err(UpdateError::UnknownProtocol)
    );
    assert_eq!(ProtocolConfigManager::kind_of("x-dlt/645-y"), Some(ProtocolKind::Dlt645));
    assert_eq!(ProtocolConfigManager::kind_of("csg13 and csg16"), Some(ProtocolKind::Csg13));
    assert_eq!(ProtocolConfigManager::kind_of("645"), None);
}

fn sub_item(name: &str, content: &str, value: u32, at: usize) -> SubItem {
    SubItem { name: name.to_string(), content: content.to_string(), value, indices: vec![at] }
}

#[test]
fn length_rules_are_parsed() {
    assert!(matches!(parse_length_rule("RANGE(结束符)"), Some(LengthRule::RangeUntil(n)) if n == "结束符"));
    assert!(matches!(parse_length_rule("12"), Some(LengthRule::Literal(12))));
    assert!(matches!(parse_length_rule(" 2 * 数量 "), Some(LengthRule::Arithmetic(2, Operator::Mul, Operand::Name(n))) if n == "数量"));
    assert!(matches!(parse_length_rule("10-3"), Some(LengthRule::Arithmetic(10, Operator::Sub, Operand::Number(3)))));
    assert!(matches!(parse_length_rule("4+n"), Some(LengthRule::Arithmetic(4, Operator::Add, Operand::Name(_)))));
    assert!(matches!(parse_length_rule("8 / 2"), Some(LengthRule::Arithmetic(8, Operator::Div, Operand::Number(2)))));
    assert!(parse_length_rule("RANGE()").is_none());
    assert!(parse_length_rule("n * 2").is_none());
    assert!(parse_length_rule("2 *").is_none());
    assert!(parse_length_rule("").is_none());
    assert!(parse_length_rule("UNKNOWN").is_none());
    assert!(parse_length_rule("4294967296").is_none());
    assert!(matches!(rule_from("ignored", Some("x".to_string())), Some(LengthRule::RangeUntil(n)) if n == "x"));
    assert!(matches!(rule_from("7", None), Some(LengthRule::Literal(7))));
}

#[test]
fn length_rules_are_evaluated() {
    let siblings = vec![sub_item("头", "", 2, 10), sub_item("数量", "3", 3, 12), sub_item("结束符", "22", 1, 13)];
    let data = [1u8, 2, 3, 22, 5, 22];
    let ok = |n: u32| ResolvedLength { length: n, resolved: true };
    let failed = ResolvedLength { length: 0, resolved: false };
    let rule = |s: &str| parse_length_rule(s).unwrap();
    assert_eq!(evaluate_rule(&rule("5"), &siblings, &data), ok(5));
    assert_eq!(evaluate_rule(&rule("2 * 数量"), &siblings, &data), ok(6));
    assert_eq!(evaluate_rule(&rule("2 + 数量"), &siblings, &data), ok(5));
    assert_eq!(evaluate_rule(&rule("7 - 数量"), &siblings, &data), ok(4));
    assert_eq!(evaluate_rule(&rule("7 / 数量"), &siblings, &data), ok(2));
    assert_eq!(evaluate_rule(&rule("2 - 数量"), &siblings, &data), failed);
    assert_eq!(evaluate_rule(&rule("2 / 0"), &siblings, &data), failed);
    assert_eq!(evaluate_rule(&rule("4294967295 + 1"), &siblings, &data), failed);
    assert_eq!(evaluate_rule(&rule("65536 * 65536"), &siblings, &data), failed);
    assert_eq!(evaluate_rule(&rule("2 * 没有"), &siblings, &data), failed);
    assert_eq!(evaluate_rule(&rule("RANGE(结束符)"), &siblings, &data), ok(2));
    assert_eq!(evaluate_rule(&rule("RANGE(头)"), &siblings, &data), failed);
    assert_eq!(evaluate_rule(&rule("RANGE(没有)"), &siblings, &data), failed);
    let first = vec![sub_item("结束符", "22", 1, 3)];
    assert_eq!(evaluate_rule(&rule("RANGE(结束符)"), &first, &data), ok(0));
    let found = FrameFun::get_sublength_caculate_base(&siblings, "数量").unwrap();
    assert_eq!((found.0, found.1, found.2.content.as_str()), (3, 1, "3"));
    assert!(FrameFun::get_sublength_caculate_base(&siblings, "x").is_none());
    let node = element("n", &[("lengthrule", "2 * 数量")], None, vec![]);
    assert_eq!(FrameFun::get_subitem_length(&node, &siblings, "k", &data, "p"), ok(6));
    let none = element("n", &[], None, vec![]);
    assert_eq!(FrameFun::get_subitem_length(&none, &siblings, "k", &data, "p"), failed);
    let bad = element("n", &[("lengthrule", "what")], None, vec![]);
    assert_eq!(FrameFun::get_subitem_length(&bad, &siblings, "k", &data, "p"), failed);
}

fn settings() -> DecodeSettings {
    DecodeSettings { protocol: "DLT/645-2007".to_string(), region: "南网".to_string(), dir: None, need_delete: true }
}

fn interpret(node: &XmlElement, window: &[u8], base: usize) -> AnnotatedField {
    let mut repo = loaded();
    FrameAnalisyic::prase_data(&mut repo, node, &settings(), window, base).unwrap().remove(0)
}

fn typed(kind: &str, extra: Vec<XmlElement>) -> XmlElement {
    let mut children = vec![element("name", &[], Some("值"), vec![]), element("type", &[], Some(kind), vec![])];
    children.extend(extra);
    element("dataItem", &[], None, children)
}

#[test]
fn leaves_are_decoded_by_their_kind() {
    let biased = |bytes: &[u8]| FrameFun::frame_add_33h(bytes);
    let f = interpret(&typed("BCD", vec![element("decimal", &[], Some("1"), vec![])]), &biased(&[0x34, 0x12]), 20);
    assert_eq!((f.label.as_str(), f.raw_hex.as_str(), f.description.as_str(), f.start, f.end), ("值", "67 45", "123.4", 20, 22));
    assert!(f.children.is_empty());
    assert_eq!(f.highlight, None);
    let f = interpret(&typed("BCD", vec![element("sign", &[], Some("1"), vec![])]), &biased(&[0x34, 0x92]), 0);
    assert_eq!(f.description, "-1234");
    assert_eq!(interpret(&typed("BIN", vec![]), &biased(&[0x39, 0x30]), 0).description, "12345");
    assert_eq!(interpret(&typed("HEX", vec![]), &biased(&[0x39, 0x30]), 0).description, "3039");
    assert_eq!(interpret(&typed("ASCII", vec![]), &biased(b"AB\0C"), 0).description, "AB");
    assert_eq!(interpret(&typed("IP", vec![]), &biased(&[1, 0, 168, 192]), 0).description, "192.168.0.1");
    assert_eq!(interpret(&typed("PORT", vec![]), &biased(&[0x1F, 0x90]), 0).description, "8080");
    let time = typed("TIME", vec![element("format", &[], Some("mmhh"), vec![])]);
    assert_eq!(interpret(&time, &biased(&[0x30, 0x12]), 0).description, "12时30分");
    assert_eq!(interpret(&typed("OTHER", vec![]), &biased(&[1, 2]), 0).description, "");
    let plain = element("dataItem", &[], None, vec![]);
    let f = interpret(&plain, &biased(&[1, 2]), 3);
    assert_eq!((f.label.as_str(), f.raw_hex.as_str(), f.description.as_str(), f.start, f.end), ("数据域", "34 35", "", 3, 5));
}

#[test]
fn malformed_leaves_degrade_to_their_bytes() {
    let biased = |bytes: &[u8]| FrameFun::frame_add_33h(bytes);
    let cases = vec![
        (typed("BCD", vec![]), biased(&[0x1A])),
        (typed("BIN", vec![]), vec![]),
        (typed("IP", vec![]), biased(&[1, 2, 3])),
        (typed("PORT", vec![]), biased(&[1, 2, 3])),
        (typed("TIME", vec![]), biased(&[1])),
        (typed("TIME", vec![element("format", &[], Some("mmhh"), vec![])]), biased(&[1])),
        (typed("ENUM", vec![]), biased(&[1])),
    ];
    for (node, window) in cases {
        let f = interpret(&node, &window, 7);
        assert_eq!(f.description, FrameFun::get_data_str_delete_33h_reverse(&window));
        assert_eq!(f.highlight, Some("red".to_string()));
        assert_eq!((f.start, f.end), (7, 7 + window.len()));
    }
}

#[test]
fn enumerations_are_looked_up_by_the_exact_pattern() {
    let mut repo = loaded();
    let node = repo.get_item("04000501", "DLT/645-2007", "南网", None).unwrap();
    let f = FrameAnalisyic::prase_data(&mut repo, &node, &settings(), &[0x34, 0x99], 0).unwrap().remove(0);
    assert_eq!((f.label.as_str(), f.raw_hex.as_str(), f.description.as_str(), f.start, f.end), ("状态字", "34", "告警", 0, 1));
    let f = FrameAnalisyic::prase_data(&mut repo, &node, &settings(), &[0x35], 0).unwrap().remove(0);
    assert_eq!(f.description, "02");
    assert_eq!(f.highlight, Some("red".to_string()));
}

#[test]
fn lengths_are_resolved() {
    let ok = |n: u32| ResolvedLength { length: n, resolved: true };
    let failed = ResolvedLength { length: 0, resolved: false };
    let none = Vec::new();
    let data = [0u8; 6];
    let literal = element("n", &[("lengthrule", "2 + 1")], None, vec![element("length", &[], Some(" 4 "), vec![])]);
    assert_eq!(FrameAnalisyic::caculate_item_length(&literal, &data, &none), ok(4));
    let unknown = element("n", &[("lengthrule", "2 + 1")], None, vec![element("length", &[], Some("UNKNOWN"), vec![])]);
    assert_eq!(FrameAnalisyic::caculate_item_length(&unknown, &data, &none), ok(3));
    let by_rule = element("n", &[("lengthrule", "2 * 2")], None, vec![]);
    assert_eq!(FrameAnalisyic::caculate_item_length(&by_rule, &data, &none), ok(4));
    let unresolved = element("n", &[], None, vec![element("length", &[], Some("UNKNOWN"), vec![])]);
    assert_eq!(FrameAnalisyic::caculate_item_length(&unresolved, &data, &none), failed);
    let whole = element("n", &[], None, vec![]);
    assert_eq!(FrameAnalisyic::caculate_item_length(&whole, &data, &none), ok(6));
    let f = interpret(&unresolved, &data, 4);
    assert_eq!((f.start, f.end, f.raw_hex.as_str()), (4, 4, ""));
    assert_eq!(f.highlight, Some("red".to_string()));
    let too_long = element("n", &[], None, vec![element("length", &[], Some("9"), vec![])]);
    let f = interpret(&too_long, &data, 4);
    assert_eq!((f.start, f.end), (4, 10));
    assert_eq!(f.highlight, Some("red".to_string()));
}

#[test]
fn items_divide_the_window_in_order() {
    let mut repo = loaded();
    let node = repo.get_item("0001FF00", "DLT/645-2007", "南网", None).unwrap();
    let window = FrameFun::frame_add_33h(&[0x67, 0x45, 0x23, 0x01, 0x00, 0x50, 0x00, 0x00, 0xAA]);
    let fields = FrameAnalisyic::prase_data(&mut repo, &node, &settings(), &window, 14).unwrap();
    assert_eq!(fields.len(), 1);
    let f = &fields[0];
    assert_eq!((f.label.as_str(), f.description.as_str(), f.start, f.end), ("正向有功电能数据块", "", 14, 23));
    assert_eq!(f.children.len(), 2);
    let a = &f.children[0];
    assert_eq!((a.label.as_str(), a.description.as_str(), a.start, a.end), ("正向有功总电能", "012345.67", 14, 18));
    let b = &f.children[1];
    assert_eq!((b.label.as_str(), b.description.as_str(), b.start, b.end), ("正向有功费率1电能", "000050.00", 18, 22));
    for child in &f.children {
        assert!(f.start <= child.start && child.end <= f.end);
    }
}

#[test]
fn an_item_that_the_schema_does_not_know_takes_the_rest() {
    let mut repo = loaded();
    let node = element(
        "dataItem",
        &[],
        None,
        vec![
            element("name", &[], Some("块"), vec![]),
            element("item", &[], Some("00010000"), vec![]),
            element("item", &[], Some("DEADBEEF"), vec![]),
            element("item", &[], Some("00010100"), vec![]),
        ],
    );
    let window = FrameFun::frame_add_33h(&[0x67, 0x45, 0x23, 0x01, 0x01, 0x02]);
    let f = FrameAnalisyic::prase_data(&mut repo, &node, &settings(), &window, 0).unwrap().remove(0);
    assert_eq!(f.children.len(), 2);
    let unknown = &f.children[1];
    assert_eq!((unknown.label.as_str(), unknown.raw_hex.as_str(), unknown.description.as_str(), unknown.start, unknown.end), ("DEADBEEF", "34 35", "0201", 4, 6));
    assert_eq!(unknown.highlight, None);
}

#[test]
fn item_box_length_sums_the_declared_lengths() {
    let mut repo = loaded();
    let node = repo.get_item("0001FF00", "DLT/645-2007", "南网", None).unwrap();
    assert_eq!(FrameFun::calculate_item_box_length(&mut repo, &node, "DLT/645-2007", "南网", None), 8);
    let other = element("n", &[], None, vec![element("item", &[], Some("nothing"), vec![]), element("item", &[], Some("04000401"), vec![])]);
    assert_eq!(FrameFun::calculate_item_box_length(&mut repo, &other, "DLT/645-2007", "南网", None), 0);
}

fn frame_of(control: u8, data: &[u8]) -> Vec<u8> {
    let mut frame = vec![0x68, 0x11, 0x22, 0x33, 0x44, 0x55, 0x66, 0x68, control, data.len() as u8];
    frame.extend_from_slice(data);
    let cs = FrameFun::calculate_cs(&frame);
    frame.push(cs);
    frame.push(0x16);
    frame
}

fn data_area(frame: &[u8], repo: &mut QframeConfig) -> AnnotatedField {
    let mut fields = Vec::new();
    assert!(Frame645::analysis_645_frame_by_afn(frame, &mut fields, 0, "南网", repo).is_ok());
    fields.remove(5)
}

#[test]
fn a_read_response_is_decoded_with_the_schema() {
    let mut repo = loaded();
    let frame = frame_of(0x91, &[0x33, 0x33, 0x34, 0x33, 0x9A, 0x78, 0x56, 0x34]);
    let area = data_area(&frame, &mut repo);
    assert_eq!((area.start, area.end), (10, 18));
    assert_eq!(area.children.len(), 2);
    assert_eq!(area.children[0].description, "数据标识编码：[00010000] - 正向有功总电能");
    let content = &area.children[1];
    assert_eq!((content.label.as_str(), content.raw_hex.as_str(), content.description.as_str(), content.start, content.end), ("数据标识内容", "9A 78 56 34", "数据标识[00010000]内容数据01234567", 14, 18));
    assert_eq!(content.children.len(), 1);
    let value = &content.children[0];
    assert_eq!((value.label.as_str(), value.description.as_str(), value.start, value.end), ("正向有功总电能", "012345.67", 14, 18));
}

#[test]
fn a_read_response_with_a_start_time_and_records() {
    let mut repo = loaded();
    let mut data = vec![0x33, 0x33, 0x34, 0x33];
    data.extend(FrameFun::frame_add_33h(&[0x24, 0x06, 0x25, 0x12, 0x30]));
    data.extend(FrameFun::frame_add_33h(&[0x67, 0x45, 0x23, 0x01, 0x00, 0x50, 0x00, 0x00]));
    let area = data_area(&frame_of(0x91, &data), &mut repo);
    let content = &area.children[1];
    assert_eq!(content.children.len(), 3);
    assert_eq!((content.children[0].label.as_str(), content.children[0].description.as_str(), content.children[0].start, content.children[0].end), ("数据起始时间", "24年06月25日12时30分", 14, 19));
    assert_eq!((content.children[1].description.as_str(), content.children[1].start, content.children[1].end), ("012345.67", 19, 23));
    assert_eq!((content.children[2].description.as_str(), content.children[2].start, content.children[2].end), ("000050.00", 23, 27));
    assert_eq!((area.children[0].start, area.children[0].end), (10, 14));
}

#[test]
fn an_unknown_identifier_degrades_to_its_bytes() {
    let mut repo = loaded();
    let frame = frame_of(0x91, &[0x34, 0x35, 0x36, 0x37, 0x9A, 0x78]);
    let area = data_area(&frame, &mut repo);
    assert_eq!(area.children.len(), 2);
    assert_eq!(area.children[0].description, "数据标识编码：[04030201]");
    let content = &area.children[1];
    assert_eq!((content.label.as_str(), content.raw_hex.as_str(), content.description.as_str(), content.start, content.end), ("数据标识内容", "9A 78", "数据标识[04030201]内容数据4567", 14, 16));
    assert!(content.children.is_empty());
    let mut manager = ProtocolConfigManager::new();
    manager.dlt645 = Some(loaded());
    let root = FrameAnalisyic::parse(&mut manager, &frame, "DLT/645-2007", "南网").unwrap();
    assert_eq!(root.children.len(), 8);
}

#[test]
fn read_requests_with_extras() {
    let mut repo = loaded();
    let area = data_area(&frame_of(0x11, &[0x33, 0x33, 0x34, 0x33, 0x35]), &mut repo);
    assert_eq!(area.children.len(), 2);
    assert_eq!((area.children[1].label.as_str(), area.children[1].raw_hex.as_str(), area.children[1].description.as_str(), area.children[1].start, area.children[1].end), ("负荷记录块数", "35", "负荷记录块数=2", 14, 15));
    let mut data = vec![0x33, 0x33, 0x34, 0x33, 0x34];
    data.extend(FrameFun::frame_add_33h(&[0x30, 0x12, 0x25, 0x06, 0x24]));
    let area = data_area(&frame_of(0x11, &data), &mut repo);
    assert_eq!(area.children.len(), 3);
    assert_eq!((area.children[2].label.as_str(), area.children[2].description.as_str(), area.children[2].start, area.children[2].end), ("给定时间", "24年06月25日12时30分", 15, 20));
    let area = data_area(&frame_of(0x11, &[0x33, 0x33, 0x34, 0x33, 0x35, 0x36]), &mut repo);
    assert_eq!((area.children[1].label.as_str(), area.children[1].raw_hex.as_str(), area.children[1].start, area.children[1].end), ("液晶查看命令", "35 36", 14, 16));
    let area = data_area(&frame_of(0x11, &[0x34, 0x33, 0x34, 0x33, 0x35]), &mut repo);
    assert_eq!(area.children.len(), 1);
}

#[test]
fn subsequent_frames_show_their_sequence_number() {
    let mut repo = loaded();
    let area = data_area(&frame_of(0x12, &[0x33, 0x33, 0x34, 0x33, 0x35]), &mut repo);
    assert_eq!(area.children.len(), 2);
    assert_eq!((area.children[1].label.as_str(), area.children[1].raw_hex.as_str(), area.children[1].description.as_str(), area.children[1].start, area.children[1].end), ("帧序号", "35", "请求帧序号: 02", 14, 15));
    let area = data_area(&frame_of(0x92, &[0x33, 0x33, 0x34, 0x33, 0x9A, 0x78, 0x56, 0x34, 0x35]), &mut repo);
    assert_eq!(area.children.len(), 3);
    assert_eq!(area.children[0].description, "数据标识编码：00010000");
    assert_eq!(area.children[1].children.len(), 1);
    assert_eq!(area.children[1].children[0].description, "012345.67");
    assert_eq!(area.children[2].description, "请求帧序号: 02");
}

#[test]
fn writes_show_password_operator_and_data() {
    let mut repo = loaded();
    let mut data = vec![0x33, 0x33, 0x34, 0x33];
    data.extend(FrameFun::frame_add_33h(&[0x02, 0x11, 0x22, 0x33, 0x78, 0x56, 0x34, 0x12]));
    data.extend(FrameFun::frame_add_33h(&[0x67, 0x45, 0x23, 0x01]));
    let area = data_area(&frame_of(0x14, &data), &mut repo);
    assert_eq!((area.start, area.end), (10, 26));
    let labels: Vec<&str> = area.children.iter().map(|c| c.label.as_str()).collect();
    assert_eq!(labels, vec!["数据标识编码", "密码权限", "密码", "操作者代码", "数据内容"]);
    assert_eq!(area.children[1].description, "权限：02");
    assert_eq!(area.children[2].description, "密码：332211");
    assert_eq!(area.children[3].description, "操作者代码：12345678");
    assert_eq!((area.children[4].description.as_str(), area.children[4].start, area.children[4].end), ("写数据内容：01234567", 22, 26));
    assert_eq!(area.children[4].children[0].description, "012345.67");
    data[0] = 0x34;
    let area = data_area(&frame_of(0x14, &data), &mut repo);
    assert_eq!(area.children.len(), 1);
    assert_eq!(area.children[0].label, "数据内容");
    assert!(area.children[0].children.is_empty());
}

#[test]
fn fields_are_found_by_label() {
    let mut repo = loaded();
    let mut fields = Vec::new();
    let frame = frame_of(0x91, &[0x33, 0x33, 0x34, 0x33, 0x9A, 0x78, 0x56, 0x34]);
    assert!(Frame645::analysis_645_frame_by_afn(&frame, &mut fields, 0, "南网", &mut repo).is_ok());
    let starts = FrameFun::find_frame_in_data_list(&fields, "帧起始符").unwrap();
    assert_eq!(starts.iter().map(|f| f.start).collect::<Vec<usize>>(), vec![0, 7]);
    let nested = FrameFun::find_frame_in_data_list(&fields, "数据标识内容").unwrap();
    assert_eq!(nested.len(), 1);
    assert_eq!(nested[0].children.len(), 1);
    assert!(FrameFun::find_frame_in_data_list(&fields, "正向有功总电能").is_none());
    assert!(FrameFun::find_frame_in_data_list(&Vec::new(), "x").is_none());
    let copy = fields[3].duplicate();
    assert_eq!(copy.children.len(), 4);
    let mut list = Vec::new();
    FrameFun::add_data(&mut list, "a".to_string(), "b".to_string(), "c".to_string(), (1, 2), None, Some("red".to_string()));
    FrameFun::add_data(&mut list, "d".to_string(), String::new(), String::new(), (2, 3), Some(vec![copy]), None);
    assert_eq!((list[0].label.as_str(), list[0].raw_hex.as_str(), list[0].description.as_str(), list[0].start, list[0].end), ("a", "b", "c", 1, 2));
    assert_eq!(list[0].highlight, Some("red".to_string()));
    assert!(list[0].children.is_empty());
    assert_eq!(list[1].children.len(), 1);
}

#[test]
fn length_and_rule_may_be_children_or_attributes() {
    let ok = |n: u32| ResolvedLength { length: n, resolved: true };
    let none = Vec::new();
    let data = [0u8; 6];
    let by_attribute = element("n", &[("length", "3")], None, vec![]);
    assert_eq!(FrameAnalisyic::caculate_item_length(&by_attribute, &data, &none), ok(3));
    assert_eq!(by_attribute.get_declared("length"), text("3"));
    let child_wins = element("n", &[("length", "3")], None, vec![element("length", &[], Some("5"), vec![])]);
    assert_eq!(FrameAnalisyic::caculate_item_length(&child_wins, &data, &none), ok(5));
    let rule_child = element("n", &[], None, vec![element("lengthrule", &[], Some("1 + 1"), vec![])]);
    assert_eq!(FrameAnalisyic::caculate_item_length(&rule_child, &data, &none), ok(2));
    assert_eq!(rule_child.get_declared("nothing"), None);
}

const RANGE_SCHEMA: &str = r#"<config protocol="DLT/645-2007" region="南网">
    <dataItem id="A1"><name>终止符</name><length>1</length><type>BIN</type></dataItem>
    <dataItem id="A2" lengthrule="RANGE(终止符)"><name>内容</name><type>HEX</type></dataItem>
    <dataItem id="A3" lengthrule="2 * 终止符"><name>尾</name><type>HEX</type></dataItem>
    <dataItem id="A0"><name>帧</name><item>A1</item><item>A2</item><item>A3</item></dataItem>
</config>"#;

#[test]
fn rules_see_the_items_resolved_before() {
    let mut repo = QframeConfig::new();
    assert_eq!(repo.load(RANGE_SCHEMA.as_bytes(), None), Ok(()));
    let node = repo.get_item("A0", "DLT/645-2007", "南网", None).unwrap();
    let plain = DecodeSettings { protocol: "DLT/645-2007".to_string(), region: "南网".to_string(), dir: None, need_delete: false };
    let window = [0x16, 0xAA, 0xBB, 0x16, 0xCC, 0xDD];
    for base in [0usize, 40] {
        let f = FrameAnalisyic::prase_data(&mut repo, &node, &plain, &window, base).unwrap().remove(0);
        assert_eq!((f.start, f.end), (base, base + 6));
        assert_eq!(f.children.len(), 3);
        let t = &f.children[0];
        assert_eq!((t.label.as_str(), t.description.as_str(), t.start, t.end), ("终止符", "22", base, base + 1));
        let v = &f.children[1];
        assert_eq!((v.label.as_str(), v.description.as_str(), v.start, v.end), ("内容", "AA", base + 1, base + 2));
        let tail = &f.children[2];
        assert_eq!((tail.label.as_str(), tail.description.as_str(), tail.start, tail.end), ("尾", "16BB", base + 2, base + 4));
        assert_eq!(tail.highlight, None);
    }
}

const LOOP_SCHEMA: &str = r#"<config protocol="DLT/645-2007" region="南网">
    <dataItem id="L1"><name>环</name><item>L1</item></dataItem>
</config>"#;

#[test]
fn items_that_name_themselves_end_at_a_fixed_depth() {
    let mut repo = QframeConfig::new();
    assert_eq!(repo.load(LOOP_SCHEMA.as_bytes(), None), Ok(()));
    let node = repo.get_item("L1", "DLT/645-2007", "南网", None).unwrap();
    let fields = FrameAnalisyic::prase_data(&mut repo, &node, &settings(), &[0x34, 0x35], 0).unwrap();
    let mut depth = 0;
    let mut at = &fields[0];
    while let Some(child) = at.children.first() {
        assert_eq!((child.start, child.end), (0, 2));
        at = child;
        depth += 1;
    }
    assert_eq!(depth, 16);
    assert_eq!(at.raw_hex, "34 35");
}

#[test]
fn a_segment_beyond_the_largest_index_is_refused() {
    let mut repo = loaded();
    let node = repo.get_item("00010000", "DLT/645-2007", "南网", None).unwrap();
    assert_eq!(
        FrameAnalisyic::prase_data(&mut repo, &node, &settings(), &[1, 2], usize::MAX - 1).err(),
        Some(DecodeError::OutOfRange)
    );
    let mut list = Vec::new();
    assert_eq!(
        Frame645::funanalysis_invalid_frame(&[0u8; 12], &mut list, usize::MAX - 11),
        Err(DecodeError::OutOfRange)
    );
    assert_eq!(Frame645::analysis_head_frame(&[0x68u8; 12], &mut list, usize::MAX - 11), Err(DecodeError::OutOfRange));
    assert!(list.is_empty());
    assert_eq!(Frame645::funanalysis_invalid_frame(&[0u8; 12], &mut list, usize::MAX - 12), Ok(()));
}

#[test]
fn each_failure_is_reported_as_its_kind() {
    assert_eq!(error_of(Failure::Io), XmlError::Io);
    assert_eq!(error_of(Failure::Utf8), XmlError::Encoding);
    assert_eq!(error_of(Failure::EscapeError), XmlError::Escape);
    assert_eq!(error_of(Failure::NameWithQuote), XmlError::Attribute);
    assert_eq!(error_of(Failure::NoEqAfterName), XmlError::Attribute);
    assert_eq!(error_of(Failure::UnquotedValue), XmlError::Attribute);
    assert_eq!(error_of(Failure::DuplicatedAttribute), XmlError::Attribute);
    assert_eq!(error_of(Failure::UnexpectedEof), XmlError::Syntax);
    assert_eq!(error_of(Failure::EndEventMismatch), XmlError::Syntax);
    assert_eq!(error_of(Failure::UnexpectedToken), XmlError::Syntax);
    assert_eq!(error_of(Failure::UnexpectedBang), XmlError::Syntax);
    assert_eq!(error_of(Failure::TextNotFound), XmlError::Syntax);
    assert_eq!(error_of(Failure::XmlDeclWithoutVersion), XmlError::Syntax);
}

#[test]
fn an_outside_error_is_never_a_runaway() {
    assert_eq!(own_error(quick_xml::Error::UnexpectedBang), XmlError::Syntax);
    assert_eq!(own_error(quick_xml::Error::TextNotFound), XmlError::Syntax);
    assert_eq!(own_error(quick_xml::Error::NameWithQuote(3)), XmlError::Attribute);
    assert_eq!(own_error(quick_xml::Error::NoEqAfterName(3)), XmlError::Attribute);
    assert_eq!(own_error(quick_xml::Error::UnquotedValue(3)), XmlError::Attribute);
    assert_eq!(own_error(quick_xml::Error::DuplicatedAttribute(3, 1)), XmlError::Attribute);
    assert_eq!(own_error(quick_xml::Error::UnexpectedEof(String::from("a"))), XmlError::Syntax);
    assert_eq!(own_error(quick_xml::Error::UnexpectedToken(String::from("a"))), XmlError::Syntax);
    assert_eq!(own_error(quick_xml::Error::XmlDeclWithoutVersion(None)), XmlError::Syntax);
}

#[test]
fn writing_a_tree_always_succeeds() {
    let leaf = element("b", &[("k", "<&>\"'")], Some("t"), vec![]);
    let root = element("a", &[], Some("v"), vec![leaf]);
    let bytes = document_bytes(&root);
    assert!(bytes.is_ok());
    assert_eq!(
        String::from_utf8(bytes.unwrap()).unwrap(),
        "<a>\n    v\n    <b k=\"&lt;&amp;&gt;&quot;&apos;\">t</b>\n</a>\n"
    );
    let mut repo = QframeConfig::new();
    assert_eq!(repo.load(b"<a><b>t</b></a>", Some(String::from("p"))), Ok(()));
    assert!(repo.save_to_bytes().is_ok());
}

#[test]
fn loading_replaces_the_tree_and_the_path() {
    let mut repo = QframeConfig::new();
    assert_eq!(repo.load(b"<a><b>t</b></a>", Some(String::from("first"))), Ok(()));
    assert_eq!(repo.config.as_ref().map(|c| c.root.name.clone()), Some(String::from("a")));
    assert_eq!(repo.config_path, Some(String::from("first")));
    assert_eq!(repo.load(b"<!-- nothing -->", Some(String::from("second"))), Ok(()));
    assert_eq!(repo.config.as_ref().map(|c| c.root.name.clone()), Some(String::from("a")));
    assert_eq!(repo.config_path, Some(String::from("first")));
    assert_eq!(repo.load(b"<c></c>", None), Ok(()));
    assert_eq!(repo.config.as_ref().map(|c| c.root.name.clone()), Some(String::from("c")));
    assert_eq!(repo.config_path, None);
}

#[test]
fn text_outside_every_element_is_passed_over_unread() {
    let before = parse_document(b"&bogus;<a>x</a>").unwrap().unwrap();
    assert!(same_tree(&before, &element("a", &[], Some("x"), vec![])));
    let behind = parse_document(b"<a>x</a>&bogus;").unwrap().unwrap();
    assert!(same_tree(&behind, &element("a", &[], Some("x"), vec![])));
    let tokens = read_tokens(b"stray<a>x</a>").unwrap();
    assert_eq!(tokens.len(), 4);
    assert!(matches!(&tokens[0], XmlToken::Other));
    assert!(matches!(&tokens[2], XmlToken::Text(t) if t == "x"));
    assert_eq!(parse_document(b"<a><b>&bogus;</b></a>").err(), Some(XmlError::Escape));
}

#[test]
fn the_first_attribute_that_fails_ends_the_reading() {
    let read = vec![
        Ok((b"k".to_vec(), String::from("v"))),
        Ok((vec![b'x', 0xFF], String::from("w"))),
    ];
    assert_eq!(
        attributes_from(&read),
        Ok(vec![(String::from("k"), String::from("v")), (String::from("x\u{FFFD}"), String::from("w"))])
    );
    let failed = vec![
        Ok((b"k".to_vec(), String::from("v"))),
        Err(quick_xml::Error::UnquotedValue(3)),
        Err(quick_xml::Error::UnexpectedBang),
    ];
    assert_eq!(attributes_from(&failed), Err(XmlError::Attribute));
    assert_eq!(attributes_from(&Vec::new()), Ok(Vec::new()));
    assert_eq!(parse_document(b"<a k=\"1\" x=2></a>").err(), Some(XmlError::Attribute));
    assert_eq!(parse_document(b"<a k=\"&bogus;\"></a>").err(), Some(XmlError::Escape));
    let root = parse_document(b"<a k=\"1 &lt; 2\" m='x'></a>").unwrap().unwrap();
    assert_eq!(root.get_attribute("k").map(|s| s.as_str()), Some("1 < 2"));
    assert_eq!(root.get_attribute("m").map(|s| s.as_str()), Some("x"));
}

#[test]
fn a_range_rule_is_anchored_at_both_ends() {
    let name = |s: &str| match parse_length_rule(s) {
        Some(LengthRule::RangeUntil(n)) => Some(n),
        _ => None,
    };
    assert_eq!(name("RANGE(a)"), Some("a".to_string()));
    assert_eq!(name("RANGE(a b\nc)"), Some("a b\nc".to_string()));
    assert_eq!(name("RANGE(()"), Some("(".to_string()));
    assert_eq!(name("RANGE(RANGE(x)"), Some("RANGE(x".to_string()));
    assert_eq!(name("RANGE()"), None);
    assert_eq!(name("RANGE(a)b)"), None);
    assert_eq!(name("RANGE(a))"), None);
    assert_eq!(name("RANGE(a)\n"), None);
    assert_eq!(name(" RANGE(a)"), None);
    assert_eq!(name("RANGE(a) "), None);
    assert_eq!(name("range(a)"), None);
    assert_eq!(name("RANGE(a"), None);
    assert_eq!(name("RANGE"), None);
}
