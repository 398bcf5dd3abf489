use drawskill::model::{Align, Arrow, Direction, Justify, Routing};
use drawskill::parse::{
    find_close, first_type_key, interp_plan, node_type, parse_align, parse_anchor, parse_arrow,
    parse_i64, parse_justify, parse_port_ref, parse_routing, scalar_repr, size_word,
    whole_expression, Interp, NodeType, Piece, ScalarRepr, SizeWord,
};
use drawskill::style::TextAnchor;

fn chars(s: &str) -> Vec<char> {
    s.chars().collect()
}

#[test]
fn connection_port_ref_splits() {
    let r = parse_port_ref("R1.a");
    assert_eq!(r.node, "R1");
    assert_eq!(r.port.as_deref(), Some("a"));
    let r2 = parse_port_ref("R1");
    assert_eq!(r2.node, "R1");
    assert!(r2.port.is_none());
}

#[test]
fn port_ref_splits_at_the_first_dot() {
    let r = parse_port_ref("U1.pin.3");
    assert_eq!(r.node, "U1");
    assert_eq!(r.port.as_deref(), Some("pin.3"));
    let r = parse_port_ref(".x");
    assert_eq!(r.node, "");
    assert_eq!(r.port.as_deref(), Some("x"));
    let r = parse_port_ref("");
    assert_eq!(r.node, "");
    assert!(r.port.is_none());
}

#[test]
fn node_type_keys() {
    assert_eq!(node_type("vbox"), Some(NodeType::Container(Direction::Column)));
    assert_eq!(node_type("hbox"), Some(NodeType::Container(Direction::Row)));
    assert_eq!(node_type("box"), Some(NodeType::Container(Direction::Stack)));
    assert_eq!(node_type("symbol"), Some(NodeType::Symbol));
    assert_eq!(node_type("text"), Some(NodeType::Text));
    assert_eq!(node_type("line"), Some(NodeType::Line));
    assert_eq!(node_type("rect"), Some(NodeType::Rect));
    assert_eq!(node_type("circle"), Some(NodeType::Circle));
    assert_eq!(node_type("path"), Some(NodeType::Path));
    assert_eq!(node_type("spacer"), Some(NodeType::Spacer));
    assert_eq!(node_type("VBOX"), None);
    assert_eq!(node_type("id"), None);
}

#[test]
fn first_type_key_in_document_order() {
    let keys: Vec<String> = ["id", "style", "text", "rect"].iter().map(|s| s.to_string()).collect();
    assert_eq!(first_type_key(&keys), Some((2, NodeType::Text)));
    let keys: Vec<String> = ["id", "width"].iter().map(|s| s.to_string()).collect();
    assert_eq!(first_type_key(&keys), None);
    assert_eq!(first_type_key(&Vec::new()), None);
}

#[test]
fn alignment_words() {
    assert_eq!(parse_align("Start"), Some(Align::Start));
    assert_eq!(parse_align("CENTER"), Some(Align::Center));
    assert_eq!(parse_align("end"), Some(Align::End));
    assert_eq!(parse_align("stretch"), Some(Align::Stretch));
    assert_eq!(parse_align("middle"), None);
    assert_eq!(parse_justify("space_between"), Some(Justify::SpaceBetween));
    assert_eq!(parse_justify("Space-Around"), Some(Justify::SpaceAround));
    assert_eq!(parse_justify("center"), Some(Justify::Center));
    assert_eq!(parse_justify("start"), Some(Justify::Start));
    assert_eq!(parse_justify("end"), Some(Justify::End));
    assert_eq!(parse_justify("stretch"), None);
    assert_eq!(parse_anchor("left"), Some(TextAnchor::Start));
    assert_eq!(parse_anchor("Middle"), Some(TextAnchor::Middle));
    assert_eq!(parse_anchor("center"), Some(TextAnchor::Middle));
    assert_eq!(parse_anchor("RIGHT"), Some(TextAnchor::End));
    assert_eq!(parse_anchor("end"), Some(TextAnchor::End));
    assert_eq!(parse_anchor("top"), None);
}

#[test]
fn routing_and_arrows() {
    assert_eq!(parse_routing(Some("Orthogonal")), Routing::Orthogonal);
    assert_eq!(parse_routing(Some("curved")), Routing::Straight);
    assert_eq!(parse_routing(None), Routing::Straight);
    assert_eq!(parse_arrow(Some("NONE")), Arrow::Neither);
    assert_eq!(parse_arrow(Some("both")), Arrow::Both);
    assert_eq!(parse_arrow(Some("start")), Arrow::End);
    assert_eq!(parse_arrow(None), Arrow::End);
    assert_eq!(Arrow::default(), Arrow::End);
    assert_eq!(Routing::default(), Routing::Straight);
}

#[test]
fn whole_expression_forms() {
    assert_eq!(whole_expression(&chars("${w + 4}")), Some(chars("w + 4")));
    assert_eq!(whole_expression(&chars("${}")), Some(vec![]));
    assert_eq!(whole_expression(&chars("${a} ${b}")), None);
    assert_eq!(whole_expression(&chars("x${a}")), None);
    assert_eq!(whole_expression(&chars("${a")), None);
}

#[test]
fn find_close_from_position() {
    let s = chars("${a}-${b}");
    assert_eq!(find_close(&s, 2), Some(3));
    assert_eq!(find_close(&s, 4), Some(8));
    assert_eq!(find_close(&s, 9), None);
}

#[test]
fn interpolation_plans() {
    assert_eq!(interp_plan("plain $ text {x}"), Interp::Plain);
    assert_eq!(interp_plan("  ${n * 2} "), Interp::Whole("n * 2".to_string()));
    assert_eq!(
        interp_plan("R${n}: ${v}V"),
        Interp::Pieces(
            vec![
                Piece::Text("R".to_string()),
                Piece::Expr("n".to_string()),
                Piece::Text(": ".to_string()),
                Piece::Expr("v".to_string()),
                Piece::Text("V".to_string()),
            ],
            true
        )
    );
    assert_eq!(
        interp_plan("a ${b"),
        Interp::Pieces(vec![Piece::Text("a ".to_string())], false)
    );
}

#[test]
fn interpolation_keeps_literal_text() {
    assert_eq!(
        interp_plan("Ω${n} Ä"),
        Interp::Pieces(
            vec![
                Piece::Text("Ω".to_string()),
                Piece::Expr("n".to_string()),
                Piece::Text(" Ä".to_string()),
            ],
            true
        )
    );
}

#[test]
fn plain_scalars_are_read_as_null_bool_or_integer() {
    assert_eq!(scalar_repr(""), ScalarRepr::Null);
    assert_eq!(scalar_repr("~"), ScalarRepr::Null);
    assert_eq!(scalar_repr("null"), ScalarRepr::Null);
    assert_eq!(scalar_repr("Null"), ScalarRepr::Other);
    assert_eq!(scalar_repr("true"), ScalarRepr::Bool(true));
    assert_eq!(scalar_repr("false"), ScalarRepr::Bool(false));
    assert_eq!(scalar_repr("TRUE"), ScalarRepr::Other);
    assert_eq!(scalar_repr("42"), ScalarRepr::Int(42));
    assert_eq!(scalar_repr("-7"), ScalarRepr::Int(-7));
    assert_eq!(scalar_repr("+007"), ScalarRepr::Int(7));
    assert_eq!(scalar_repr("1.5"), ScalarRepr::Other);
    assert_eq!(scalar_repr("R1"), ScalarRepr::Other);
    assert_eq!(scalar_repr(" 1"), ScalarRepr::Other);
}

#[test]
fn i64_bounds_follow_from_str() {
    let p = |s: &str| parse_i64(&s.chars().collect::<Vec<char>>());
    assert_eq!(p("9223372036854775807"), Some(i64::MAX));
    assert_eq!(p("9223372036854775808"), None);
    assert_eq!(p("-9223372036854775808"), Some(i64::MIN));
    assert_eq!(p("-9223372036854775809"), None);
    assert_eq!(p("-0"), Some(0));
    for s in ["", "-", "+", "--1", "+-1", "12a", "99999999999999999999999", "-12", "+3"] {
        assert_eq!(p(s), s.parse::<i64>().ok(), "{s:?}");
    }
}

#[test]
fn size_words() {
    assert_eq!(size_word(" AUTO "), SizeWord::Auto);
    assert_eq!(size_word("grow"), SizeWord::Grow(String::new()));
    assert_eq!(size_word("grow: 2"), SizeWord::Grow("2".to_string()));
    assert_eq!(size_word(" grow 3 "), SizeWord::Grow("3".to_string()));
    assert_eq!(size_word("grow:: :1.5\t"), SizeWord::Grow("1.5".to_string()));
    assert_eq!(size_word("Grow"), SizeWord::Value("Grow".to_string()));
    assert_eq!(size_word(" 120 "), SizeWord::Value("120".to_string()));
    assert_eq!(size_word("wide"), SizeWord::Value("wide".to_string()));
}
