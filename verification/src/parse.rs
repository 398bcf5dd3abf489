//! The text-level rules of the diagram language: `${ ... }` interpolation templates, port
//! references (`node.port`), and the keyword values of layout attributes.
use vstd::prelude::*;
use crate::model::{Align, Arrow, Direction, Justify, PortRef, Routing};
use crate::style::TextAnchor;
use crate::text_util::{
    chars_of, eq_ignore_case, eq_ignore_case_str, eq_str, lower, lower_seq, lowered, string_from,
    sub_chars, trim, trimmed,
};
use crate::update::{all_decimal, decimal_value};

verus! {

// ---------------------------------------------------------------------------
// Port references
// ---------------------------------------------------------------------------

/// The index of the first `c` in `s`, if any.
pub open spec fn first_index(s: Seq<char>, c: char) -> Option<int>
    decreases s.len(),
{
    if s.len() == 0 {
        None
    } else {
        match first_index(s.drop_last(), c) {
            Some(k) => Some(k),
            None => if s.last() == c {
                Some(s.len() - 1)
            } else {
                None
            },
        }
    }
}

pub proof fn lemma_first_index(s: Seq<char>, c: char)
    ensures
        match first_index(s, c) {
            Some(k) => 0 <= k < s.len() && s[k] == c && forall|j: int|
                0 <= j < k ==> #[trigger] s[j] != c,
            None => forall|j: int| 0 <= j < s.len() ==> #[trigger] s[j] != c,
        },
    decreases s.len(),
{
    if s.len() > 0 {
        lemma_first_index(s.drop_last(), c);
        assert forall|j: int| 0 <= j < s.len() - 1 implies s.drop_last()[j] == s[j] by {}
    }
}

/// Finds the first `c` in `v`.
pub fn find_char(v: &[char], c: char) -> (r: Option<usize>)
    ensures
        match r {
            Some(k) => first_index(v@, c) == Some(k as int) && k < v@.len(),
            None => first_index(v@, c) is None,
        },
{
    proof {
        lemma_first_index(v@, c);
    }
    let mut i: usize = 0;
    while i < v.len()
        invariant
            i <= v.len(),
            forall|j: int| 0 <= j < i ==> #[trigger] v@[j] != c,
        decreases v.len() - i,
    {
        if v[i] == c {
            proof {
                lemma_first_index(v@, c);
                match first_index(v@, c) {
                    Some(k) => {
                        if k < i {
                            assert(v@[k] != c);
                        }
                        if k > i {
                            assert(v@[i as int] != c);
                        }
                    },
                    None => {
                        assert(v@[i as int] != c);
                    },
                }
            }
            return Some(i);
        }
        i += 1;
    }
    None
}

/// Split `node.port` at its first dot; without a dot the whole text names the node.
pub fn parse_port_ref(s: &str) -> (r: PortRef)
    ensures
        match first_index(s@, '.') {
            Some(k) => r.node@ == s@.take(k) && (r.port matches Some(p) && p@ == s@.skip(k + 1)),
            None => r.node@ == s@ && r.port is None,
        },
{
    let v = chars_of(s);
    match find_char(v.as_slice(), '.') {
        Some(k) => {
            let node = sub_chars(v.as_slice(), 0, k);
            let port = sub_chars(v.as_slice(), k + 1, v.len());
            PortRef { node: string_from(&node), port: Some(string_from(&port)) }
        },
        None => PortRef { node: string_from(&v), port: None },
    }
}

// ---------------------------------------------------------------------------
// Node types
// ---------------------------------------------------------------------------

/// The kind of node a mapping describes, named by its type key.
#[derive(Debug, Clone, Copy, PartialEq, Eq, Structural)]
pub enum NodeType {
    /// `vbox`, `hbox` or `box`.
    Container(Direction),
    Symbol,
    Text,
    Line,
    Rect,
    Circle,
    Path,
    Spacer,
}

/// The node type a mapping key names, if it is one of the type keys.
pub open spec fn node_type_spec(k: Seq<char>) -> Option<NodeType> {
    if k == "vbox"@ {
        Some(NodeType::Container(Direction::Column))
    } else if k == "hbox"@ {
        Some(NodeType::Container(Direction::Row))
    } else if k == "box"@ {
        Some(NodeType::Container(Direction::Stack))
    } else if k == "symbol"@ {
        Some(NodeType::Symbol)
    } else if k == "text"@ {
        Some(NodeType::Text)
    } else if k == "line"@ {
        Some(NodeType::Line)
    } else if k == "rect"@ {
        Some(NodeType::Rect)
    } else if k == "circle"@ {
        Some(NodeType::Circle)
    } else if k == "path"@ {
        Some(NodeType::Path)
    } else if k == "spacer"@ {
        Some(NodeType::Spacer)
    } else {
        None
    }
}

/// The type keys of the diagram language, exactly as written: `vbox` a column container,
/// `hbox` a row container, `box` a stacking container, and `symbol`, `text`, `line`, `rect`,
/// `circle`, `path` and `spacer` the node of that name; no other key names a node type.
pub proof fn lemma_node_type_keys(k: Seq<char>)
    ensures
        node_type_spec("vbox"@) == Some(NodeType::Container(Direction::Column)),
        node_type_spec("hbox"@) == Some(NodeType::Container(Direction::Row)),
        node_type_spec("box"@) == Some(NodeType::Container(Direction::Stack)),
        node_type_spec("symbol"@) == Some(NodeType::Symbol),
        node_type_spec("text"@) == Some(NodeType::Text),
        node_type_spec("line"@) == Some(NodeType::Line),
        node_type_spec("rect"@) == Some(NodeType::Rect),
        node_type_spec("circle"@) == Some(NodeType::Circle),
        node_type_spec("path"@) == Some(NodeType::Path),
        node_type_spec("spacer"@) == Some(NodeType::Spacer),
        node_type_spec(k) is Some ==> (k == "vbox"@ || k == "hbox"@ || k == "box"@ || k == "symbol"@ || k == "text"@ || k == "line"@ || k == "rect"@ || k == "circle"@ || k == "path"@ || k == "spacer"@),
{
    reveal_strlit("vbox");
    reveal_strlit("hbox");
    reveal_strlit("box");
    reveal_strlit("symbol");
    reveal_strlit("text");
    reveal_strlit("line");
    reveal_strlit("rect");
    reveal_strlit("circle");
    reveal_strlit("path");
    reveal_strlit("spacer");
    assert(node_type_spec("vbox"@) == Some(NodeType::Container(Direction::Column))) by {
        assert("vbox"@[0] != "hbox"@[0]);
        assert("vbox"@.len() != "box"@.len());
        assert("vbox"@.len() != "symbol"@.len());
        assert("vbox"@[0] != "text"@[0]);
        assert("vbox"@[0] != "line"@[0]);
        assert("vbox"@[0] != "rect"@[0]);
        assert("vbox"@.len() != "circle"@.len());
        assert("vbox"@[0] != "path"@[0]);
        assert("vbox"@.len() != "spacer"@.len());
    }
    assert(node_type_spec("hbox"@) == Some(NodeType::Container(Direction::Row))) by {
        assert("hbox"@[0] != "vbox"@[0]);
        assert("hbox"@.len() != "box"@.len());
        assert("hbox"@.len() != "symbol"@.len());
        assert("hbox"@[0] != "text"@[0]);
        assert("hbox"@[0] != "line"@[0]);
        assert("hbox"@[0] != "rect"@[0]);
        assert("hbox"@.len() != "circle"@.len());
        assert("hbox"@[0] != "path"@[0]);
        assert("hbox"@.len() != "spacer"@.len());
    }
    assert(node_type_spec("box"@) == Some(NodeType::Container(Direction::Stack))) by {
        assert("box"@.len() != "vbox"@.len());
        assert("box"@.len() != "hbox"@.len());
        assert("box"@.len() != "symbol"@.len());
        assert("box"@.len() != "text"@.len());
        assert("box"@.len() != "line"@.len());
        assert("box"@.len() != "rect"@.len());
        assert("box"@.len() != "circle"@.len());
        assert("box"@.len() != "path"@.len());
        assert("box"@.len() != "spacer"@.len());
    }
    assert(node_type_spec("symbol"@) == Some(NodeType::Symbol)) by {
        assert("symbol"@.len() != "vbox"@.len());
        assert("symbol"@.len() != "hbox"@.len());
        assert("symbol"@.len() != "box"@.len());
        assert("symbol"@.len() != "text"@.len());
        assert("symbol"@.len() != "line"@.len());
        assert("symbol"@.len() != "rect"@.len());
        assert("symbol"@[0] != "circle"@[0]);
        assert("symbol"@.len() != "path"@.len());
        assert("symbol"@[1] != "spacer"@[1]);
    }
    assert(node_type_spec("text"@) == Some(NodeType::Text)) by {
        assert("text"@[0] != "vbox"@[0]);
        assert("text"@[0] != "hbox"@[0]);
        assert("text"@.len() != "box"@.len());
        assert("text"@.len() != "symbol"@.len());
        assert("text"@[0] != "line"@[0]);
        assert("text"@[0] != "rect"@[0]);
        assert("text"@.len() != "circle"@.len());
        assert("text"@[0] != "path"@[0]);
        assert("text"@.len() != "spacer"@.len());
    }
    assert(node_type_spec("line"@) == Some(NodeType::Line)) by {
        assert("line"@[0] != "vbox"@[0]);
        assert("line"@[0] != "hbox"@[0]);
        assert("line"@.len() != "box"@.len());
        assert("line"@.len() != "symbol"@.len());
        assert("line"@[0] != "text"@[0]);
        assert("line"@[0] != "rect"@[0]);
        assert("line"@.len() != "circle"@.len());
        assert("line"@[0] != "path"@[0]);
        assert("line"@.len() != "spacer"@.len());
    }
    assert(node_type_spec("rect"@) == Some(NodeType::Rect)) by {
        assert("rect"@[0] != "vbox"@[0]);
        assert("rect"@[0] != "hbox"@[0]);
        assert("rect"@.len() != "box"@.len());
        assert("rect"@.len() != "symbol"@.len());
        assert("rect"@[0] != "text"@[0]);
        assert("rect"@[0] != "line"@[0]);
        assert("rect"@.len() != "circle"@.len());
        assert("rect"@[0] != "path"@[0]);
        assert("rect"@.len() != "spacer"@.len());
    }
    assert(node_type_spec("circle"@) == Some(NodeType::Circle)) by {
        assert("circle"@.len() != "vbox"@.len());
        assert("circle"@.len() != "hbox"@.len());
        assert("circle"@.len() != "box"@.len());
        assert("circle"@[0] != "symbol"@[0]);
        assert("circle"@.len() != "text"@.len());
        assert("circle"@.len() != "line"@.len());
        assert("circle"@.len() != "rect"@.len());
        assert("circle"@.len() != "path"@.len());
        assert("circle"@[0] != "spacer"@[0]);
    }
    assert(node_type_spec("path"@) == Some(NodeType::Path)) by {
        assert("path"@[0] != "vbox"@[0]);
        assert("path"@[0] != "hbox"@[0]);
        assert("path"@.len() != "box"@.len());
        assert("path"@.len() != "symbol"@.len());
        assert("path"@[0] != "text"@[0]);
        assert("path"@[0] != "line"@[0]);
        assert("path"@[0] != "rect"@[0]);
        assert("path"@.len() != "circle"@.len());
        assert("path"@.len() != "spacer"@.len());
    }
    assert(node_type_spec("spacer"@) == Some(NodeType::Spacer)) by {
        assert("spacer"@.len() != "vbox"@.len());
        assert("spacer"@.len() != "hbox"@.len());
        assert("spacer"@.len() != "box"@.len());
        assert("spacer"@[1] != "symbol"@[1]);
        assert("spacer"@.len() != "text"@.len());
        assert("spacer"@.len() != "line"@.len());
        assert("spacer"@.len() != "rect"@.len());
        assert("spacer"@[0] != "circle"@[0]);
        assert("spacer"@.len() != "path"@.len());
    }
}

/// The node type a key names.
pub fn node_type(key: &str) -> (r: Option<NodeType>)
    ensures
        r == node_type_spec(key@),
{
    let k = chars_of(key);
    let k = k.as_slice();
    if eq_str(k, "vbox") {
        Some(NodeType::Container(Direction::Column))
    } else if eq_str(k, "hbox") {
        Some(NodeType::Container(Direction::Row))
    } else if eq_str(k, "box") {
        Some(NodeType::Container(Direction::Stack))
    } else if eq_str(k, "symbol") {
        Some(NodeType::Symbol)
    } else if eq_str(k, "text") {
        Some(NodeType::Text)
    } else if eq_str(k, "line") {
        Some(NodeType::Line)
    } else if eq_str(k, "rect") {
        Some(NodeType::Rect)
    } else if eq_str(k, "circle") {
        Some(NodeType::Circle)
    } else if eq_str(k, "path") {
        Some(NodeType::Path)
    } else if eq_str(k, "spacer") {
        Some(NodeType::Spacer)
    } else {
        None
    }
}

/// The first of a mapping's keys (in document order) that is a type key, with its type.
pub fn first_type_key(keys: &Vec<String>) -> (r: Option<(usize, NodeType)>)
    ensures
        match r {
            Some((i, t)) => i < keys@.len() && node_type_spec(keys@[i as int]@) == Some(t) && forall|
                j: int,
            | 0 <= j < i ==> node_type_spec(#[trigger] keys@[j]@) is None,
            None => forall|j: int| 0 <= j < keys@.len() ==> node_type_spec(#[trigger] keys@[j]@) is None,
        },
{
    let mut i: usize = 0;
    while i < keys.len()
        invariant
            i <= keys@.len(),
            forall|j: int| 0 <= j < i ==> node_type_spec(#[trigger] keys@[j]@) is None,
        decreases keys.len() - i,
    {
        if let Some(t) = node_type(keys[i].as_str()) {
            return Some((i, t));
        }
        i += 1;
    }
    None
}

// ---------------------------------------------------------------------------
// Keyword attributes
// ---------------------------------------------------------------------------

pub open spec fn align_spec(s: Seq<char>) -> Option<Align> {
    let l = lower_seq(s);
    if l == "start"@ {
        Some(Align::Start)
    } else if l == "center"@ {
        Some(Align::Center)
    } else if l == "end"@ {
        Some(Align::End)
    } else if l == "stretch"@ {
        Some(Align::Stretch)
    } else {
        None
    }
}

/// `align` / `align_self`: `start | center | end | stretch`, any case.
pub fn parse_align(s: &str) -> (r: Option<Align>)
    ensures
        r == align_spec(s@),
{
    let l = lowered(chars_of(s).as_slice());
    if eq_str(l.as_slice(), "start") {
        Some(Align::Start)
    } else if eq_str(l.as_slice(), "center") {
        Some(Align::Center)
    } else if eq_str(l.as_slice(), "end") {
        Some(Align::End)
    } else if eq_str(l.as_slice(), "stretch") {
        Some(Align::Stretch)
    } else {
        None
    }
}

/// The words of `align`, in any case: `start`, `center`, `end` and `stretch` each name the
/// alignment of the same name; no other word is an alignment.
pub proof fn lemma_align_words(s: Seq<char>)
    ensures
        eq_ignore_case(s, "start"@) ==> align_spec(s) == Some(Align::Start),
        eq_ignore_case(s, "center"@) ==> align_spec(s) == Some(Align::Center),
        eq_ignore_case(s, "end"@) ==> align_spec(s) == Some(Align::End),
        eq_ignore_case(s, "stretch"@) ==> align_spec(s) == Some(Align::Stretch),
        align_spec(s) is Some ==> (eq_ignore_case(s, "start"@) || eq_ignore_case(s, "center"@) || eq_ignore_case(s, "end"@) || eq_ignore_case(s, "stretch"@)),
{
    reveal_strlit("start");
    reveal_strlit("center");
    reveal_strlit("end");
    reveal_strlit("stretch");
    assert(lower_seq("start"@) =~= "start"@);
    assert(lower_seq("center"@) =~= "center"@);
    assert(lower_seq("end"@) =~= "end"@);
    assert(lower_seq("stretch"@) =~= "stretch"@);
    if eq_ignore_case(s, "start"@) {
        assert("start"@.len() != "center"@.len());
        assert("start"@.len() != "end"@.len());
        assert("start"@.len() != "stretch"@.len());
    }
    if eq_ignore_case(s, "center"@) {
        assert("center"@.len() != "start"@.len());
        assert("center"@.len() != "end"@.len());
        assert("center"@.len() != "stretch"@.len());
    }
    if eq_ignore_case(s, "end"@) {
        assert("end"@.len() != "start"@.len());
        assert("end"@.len() != "center"@.len());
        assert("end"@.len() != "stretch"@.len());
    }
    if eq_ignore_case(s, "stretch"@) {
        assert("stretch"@.len() != "start"@.len());
        assert("stretch"@.len() != "center"@.len());
        assert("stretch"@.len() != "end"@.len());
    }
}

/// Lowercase, with `_` read as `-`.
pub open spec fn justify_key(s: Seq<char>) -> Seq<char> {
    s.map_values(|c: char| if lower(c) == '_' { '-' } else { lower(c) })
}

pub open spec fn justify_spec(s: Seq<char>) -> Option<Justify> {
    let k = justify_key(s);
    if k == "start"@ {
        Some(Justify::Start)
    } else if k == "center"@ {
        Some(Justify::Center)
    } else if k == "end"@ {
        Some(Justify::End)
    } else if k == "space-between"@ {
        Some(Justify::SpaceBetween)
    } else if k == "space-around"@ {
        Some(Justify::SpaceAround)
    } else {
        None
    }
}

/// The `justify` key of a text whose lowercase form is `w`: `w` with `_` read as `-`.
proof fn lemma_justify_key_of(s: Seq<char>, w: Seq<char>, key: Seq<char>)
    requires
        lower_seq(s) == w,
        key.len() == w.len(),
        forall|i: int| 0 <= i < w.len() ==> key[i] == (if w[i] == '_' { '-' } else { w[i] }),
    ensures
        justify_key(s) == key,
{
    assert forall|i: int| 0 <= i < s.len() implies justify_key(s)[i] == key[i] by {
        assert(lower_seq(s)[i] == lower(s[i]));
    }
    assert(justify_key(s) =~= key);
}

/// Each character of a text's `justify` key is its lowercase form, but where that is `_`.
proof fn lemma_justify_key_back(s: Seq<char>)
    ensures
        lower_seq(s).len() == justify_key(s).len(),
        forall|i: int| 0 <= i < s.len() ==> #[trigger] lower_seq(s)[i] == justify_key(s)[i] || (
        justify_key(s)[i] == '-' && lower_seq(s)[i] == '_'),
{
}

/// The words of `justify`, in any case and with `_` or `-` between the parts of a word:
/// `start`, `center`, `end`, `space-between` and `space-around` each name the distribution of
/// the same name; no other word is a distribution.
pub proof fn lemma_justify_words(s: Seq<char>)
    ensures
        eq_ignore_case(s, "start"@) ==> justify_spec(s) == Some(Justify::Start),
        eq_ignore_case(s, "center"@) ==> justify_spec(s) == Some(Justify::Center),
        eq_ignore_case(s, "end"@) ==> justify_spec(s) == Some(Justify::End),
        eq_ignore_case(s, "space-between"@) || eq_ignore_case(s, "space_between"@) ==> justify_spec(s) == Some(Justify::SpaceBetween),
        eq_ignore_case(s, "space-around"@) || eq_ignore_case(s, "space_around"@) ==> justify_spec(s) == Some(Justify::SpaceAround),
        justify_spec(s) is Some ==> (eq_ignore_case(s, "start"@) || eq_ignore_case(s, "center"@) || eq_ignore_case(s, "end"@) || eq_ignore_case(s, "space-between"@) || eq_ignore_case(s, "space_between"@) || eq_ignore_case(s, "space-around"@) || eq_ignore_case(s, "space_around"@)),
{
    reveal_strlit("start");
    reveal_strlit("center");
    reveal_strlit("end");
    reveal_strlit("space-between");
    reveal_strlit("space_between");
    reveal_strlit("space-around");
    reveal_strlit("space_around");
    assert(lower_seq("start"@) =~= "start"@);
    assert(lower_seq("center"@) =~= "center"@);
    assert(lower_seq("end"@) =~= "end"@);
    assert(lower_seq("space-between"@) =~= "space-between"@);
    assert(lower_seq("space_between"@) =~= "space_between"@);
    assert(lower_seq("space-around"@) =~= "space-around"@);
    assert(lower_seq("space_around"@) =~= "space_around"@);
    if eq_ignore_case(s, "start"@) {
        lemma_justify_key_of(s, "start"@, "start"@);
        assert("start"@.len() != "center"@.len());
        assert("start"@.len() != "end"@.len());
        assert("start"@.len() != "space-between"@.len());
        assert("start"@.len() != "space-around"@.len());
    }
    if eq_ignore_case(s, "center"@) {
        lemma_justify_key_of(s, "center"@, "center"@);
        assert("center"@.len() != "start"@.len());
        assert("center"@.len() != "end"@.len());
        assert("center"@.len() != "space-between"@.len());
        assert("center"@.len() != "space-around"@.len());
    }
    if eq_ignore_case(s, "end"@) {
        lemma_justify_key_of(s, "end"@, "end"@);
        assert("end"@.len() != "start"@.len());
        assert("end"@.len() != "center"@.len());
        assert("end"@.len() != "space-between"@.len());
        assert("end"@.len() != "space-around"@.len());
    }
    if eq_ignore_case(s, "space-between"@) {
        lemma_justify_key_of(s, "space-between"@, "space-between"@);
        assert("space-between"@.len() != "start"@.len());
        assert("space-between"@.len() != "center"@.len());
        assert("space-between"@.len() != "end"@.len());
        assert("space-between"@.len() != "space-around"@.len());
    }
    if eq_ignore_case(s, "space_between"@) {
        lemma_justify_key_of(s, "space_between"@, "space-between"@);
        assert("space-between"@.len() != "start"@.len());
        assert("space-between"@.len() != "center"@.len());
        assert("space-between"@.len() != "end"@.len());
        assert("space-between"@.len() != "space-around"@.len());
    }
    if eq_ignore_case(s, "space-around"@) {
        lemma_justify_key_of(s, "space-around"@, "space-around"@);
        assert("space-around"@.len() != "start"@.len());
        assert("space-around"@.len() != "center"@.len());
        assert("space-around"@.len() != "end"@.len());
        assert("space-around"@.len() != "space-between"@.len());
    }
    if eq_ignore_case(s, "space_around"@) {
        lemma_justify_key_of(s, "space_around"@, "space-around"@);
        assert("space-around"@.len() != "start"@.len());
        assert("space-around"@.len() != "center"@.len());
        assert("space-around"@.len() != "end"@.len());
        assert("space-around"@.len() != "space-between"@.len());
    }
    if justify_spec(s) is Some {
        let k = justify_key(s);
        lemma_justify_key_back(s);
        if k == "start"@ {
            assert(lower_seq(s) =~= "start"@);
        }
        if k == "center"@ {
            assert(lower_seq(s) =~= "center"@);
        }
        if k == "end"@ {
            assert(lower_seq(s) =~= "end"@);
        }
        if k == "space-between"@ {
            if lower_seq(s)[5] == '_' {
                assert(lower_seq(s) =~= "space_between"@);
            } else {
                assert(lower_seq(s) =~= "space-between"@);
            }
        }
        if k == "space-around"@ {
            if lower_seq(s)[5] == '_' {
                assert(lower_seq(s) =~= "space_around"@);
            } else {
                assert(lower_seq(s) =~= "space-around"@);
            }
        }
    }
}

/// `justify`: `start | center | end | space-between | space-around` (any case, `_` or `-`).
pub fn parse_justify(s: &str) -> (r: Option<Justify>)
    ensures
        r == justify_spec(s@),
{
    let v = chars_of(s);
    let mut k: Vec<char> = Vec::new();
    let mut i: usize = 0;
    while i < v.len()
        invariant
            i <= v.len(),
            k@ == justify_key(v@.take(i as int)),
        decreases v.len() - i,
    {
        let c = crate::text_util::to_lower(v[i]);
        k.push(if c == '_' { '-' } else { c });
        i += 1;
        assert(justify_key(v@.take(i as int)) == justify_key(v@.take((i - 1) as int)).push(
            if lower(v@[i - 1]) == '_' { '-' } else { lower(v@[i - 1]) },
        ));
    }
    assert(v@.take(v.len() as int) == v@);
    if eq_str(k.as_slice(), "start") {
        Some(Justify::Start)
    } else if eq_str(k.as_slice(), "center") {
        Some(Justify::Center)
    } else if eq_str(k.as_slice(), "end") {
        Some(Justify::End)
    } else if eq_str(k.as_slice(), "space-between") {
        Some(Justify::SpaceBetween)
    } else if eq_str(k.as_slice(), "space-around") {
        Some(Justify::SpaceAround)
    } else {
        None
    }
}

pub open spec fn anchor_spec(s: Seq<char>) -> Option<TextAnchor> {
    let l = lower_seq(s);
    if l == "start"@ || l == "left"@ {
        Some(TextAnchor::Start)
    } else if l == "middle"@ || l == "center"@ {
        Some(TextAnchor::Middle)
    } else if l == "end"@ || l == "right"@ {
        Some(TextAnchor::End)
    } else {
        None
    }
}

/// The words of `text_anchor`, in any case: `start` or `left` anchor text at its start,
/// `middle` or `center` at its middle, `end` or `right` at its end; no other word is an
/// anchor.
pub proof fn lemma_anchor_words(s: Seq<char>)
    ensures
        eq_ignore_case(s, "start"@) || eq_ignore_case(s, "left"@) ==> anchor_spec(s) == Some(TextAnchor::Start),
        eq_ignore_case(s, "middle"@) || eq_ignore_case(s, "center"@) ==> anchor_spec(s) == Some(TextAnchor::Middle),
        eq_ignore_case(s, "end"@) || eq_ignore_case(s, "right"@) ==> anchor_spec(s) == Some(TextAnchor::End),
        anchor_spec(s) is Some ==> (eq_ignore_case(s, "start"@) || eq_ignore_case(s, "left"@) || eq_ignore_case(s, "middle"@) || eq_ignore_case(s, "center"@) || eq_ignore_case(s, "end"@) || eq_ignore_case(s, "right"@)),
{
    reveal_strlit("start");
    reveal_strlit("left");
    reveal_strlit("middle");
    reveal_strlit("center");
    reveal_strlit("end");
    reveal_strlit("right");
    assert(lower_seq("start"@) =~= "start"@);
    assert(lower_seq("left"@) =~= "left"@);
    assert(lower_seq("middle"@) =~= "middle"@);
    assert(lower_seq("center"@) =~= "center"@);
    assert(lower_seq("end"@) =~= "end"@);
    assert(lower_seq("right"@) =~= "right"@);
    if eq_ignore_case(s, "start"@) {
        assert("start"@.len() != "left"@.len());
        assert("start"@.len() != "middle"@.len());
        assert("start"@.len() != "center"@.len());
        assert("start"@.len() != "end"@.len());
        assert("start"@[0] != "right"@[0]);
    }
    if eq_ignore_case(s, "left"@) {
        assert("left"@.len() != "start"@.len());
        assert("left"@.len() != "middle"@.len());
        assert("left"@.len() != "center"@.len());
        assert("left"@.len() != "end"@.len());
        assert("left"@.len() != "right"@.len());
    }
    if eq_ignore_case(s, "middle"@) {
        assert("middle"@.len() != "start"@.len());
        assert("middle"@.len() != "left"@.len());
        assert("middle"@[0] != "center"@[0]);
        assert("middle"@.len() != "end"@.len());
        assert("middle"@.len() != "right"@.len());
    }
    if eq_ignore_case(s, "center"@) {
        assert("center"@.len() != "start"@.len());
        assert("center"@.len() != "left"@.len());
        assert("center"@[0] != "middle"@[0]);
        assert("center"@.len() != "end"@.len());
        assert("center"@.len() != "right"@.len());
    }
    if eq_ignore_case(s, "end"@) {
        assert("end"@.len() != "start"@.len());
        assert("end"@.len() != "left"@.len());
        assert("end"@.len() != "middle"@.len());
        assert("end"@.len() != "center"@.len());
        assert("end"@.len() != "right"@.len());
    }
    if eq_ignore_case(s, "right"@) {
        assert("right"@[0] != "start"@[0]);
        assert("right"@.len() != "left"@.len());
        assert("right"@.len() != "middle"@.len());
        assert("right"@.len() != "center"@.len());
        assert("right"@.len() != "end"@.len());
    }
}

/// `text_anchor`: `start|left`, `middle|center`, `end|right`, any case.
pub fn parse_anchor(s: &str) -> (r: Option<TextAnchor>)
    ensures
        r == anchor_spec(s@),
{
    let l = lowered(chars_of(s).as_slice());
    if eq_str(l.as_slice(), "start") || eq_str(l.as_slice(), "left") {
        Some(TextAnchor::Start)
    } else if eq_str(l.as_slice(), "middle") || eq_str(l.as_slice(), "center") {
        Some(TextAnchor::Middle)
    } else if eq_str(l.as_slice(), "end") || eq_str(l.as_slice(), "right") {
        Some(TextAnchor::End)
    } else {
        None
    }
}

/// A connection's `routing`: orthogonal when the value says so (any case), else straight.
pub fn parse_routing(s: Option<&str>) -> (r: Routing)
    ensures
        r == (if s matches Some(t) && eq_ignore_case(t@, "orthogonal"@) {
            Routing::Orthogonal
        } else {
            Routing::Straight
        }),
{
    match s {
        Some(t) => if eq_ignore_case_str(chars_of(t).as_slice(), "orthogonal") {
            Routing::Orthogonal
        } else {
            Routing::Straight
        },
        None => Routing::Straight,
    }
}

/// A connection's `arrow`: `none`, `both`, or (by default) an arrowhead at the end.
pub fn parse_arrow(s: Option<&str>) -> (r: Arrow)
    ensures
        r == (if s matches Some(t) && eq_ignore_case(t@, "none"@) {
            Arrow::Neither
        } else if s matches Some(t) && eq_ignore_case(t@, "both"@) {
            Arrow::Both
        } else {
            Arrow::End
        }),
{
    match s {
        Some(t) => {
            let v = chars_of(t);
            if eq_ignore_case_str(v.as_slice(), "none") {
                Arrow::Neither
            } else if eq_ignore_case_str(v.as_slice(), "both") {
                Arrow::Both
            } else {
                Arrow::End
            }
        },
        None => Arrow::End,
    }
}


// ---------------------------------------------------------------------------
// `${ ... }` interpolation
// ---------------------------------------------------------------------------

/// A piece of an interpolated string: literal text, or the source of an embedded expression.
#[derive(Debug, Clone, PartialEq)]
pub enum Piece {
    Text(String),
    Expr(String),
}

pub enum PieceV {
    Text(Seq<char>),
    Expr(Seq<char>),
}

impl View for Piece {
    type V = PieceV;

    open spec fn view(&self) -> PieceV {
        match self {
            Piece::Text(t) => PieceV::Text(t@),
            Piece::Expr(e) => PieceV::Expr(e@),
        }
    }
}

pub open spec fn pieces_view(v: Seq<Piece>) -> Seq<PieceV> {
    v.map_values(|p: Piece| p@)
}

/// How a string scalar is interpolated.
#[derive(Debug, Clone, PartialEq)]
pub enum Interp {
    /// No `${` occurs: the string stands as it is.
    Plain,
    /// The (trimmed) string is exactly one `${expr}`; its value keeps the expression's type.
    Whole(String),
    /// Literal text and embedded expressions, in order; `false` when a `${` is left open
    /// after the last piece.
    Pieces(Vec<Piece>, bool),
}

/// `${` occurs in `s`.
pub open spec fn has_open(s: Seq<char>) -> bool {
    exists|k: int| 0 <= k < s.len() - 1 && #[trigger] opens_at(s, k)
}

/// `${` starts at `k`.
pub open spec fn opens_at(s: Seq<char>, k: int) -> bool {
    s[k] == '$' && s[k + 1] == '{'
}

/// If `t` is exactly `${ ... }` with no other `}`, the text inside.
pub open spec fn whole_spec(t: Seq<char>) -> Option<Seq<char>> {
    if t.len() >= 3 && t[0] == '$' && t[1] == '{' && t.last() == '}' && first_index(
        t.subrange(2, t.len() - 1),
        '}',
    ) is None {
        Some(t.subrange(2, t.len() - 1))
    } else {
        None
    }
}

/// Literal text `t` put in front of a piece list, merged with a leading text piece.
pub open spec fn add_text(t: Seq<char>, r: (Seq<PieceV>, bool)) -> (Seq<PieceV>, bool) {
    if t.len() == 0 {
        r
    } else if r.0.len() > 0 && r.0[0] is Text {
        (seq![PieceV::Text(t + r.0[0]->Text_0)] + r.0.drop_first(), r.1)
    } else {
        (seq![PieceV::Text(t)] + r.0, r.1)
    }
}

/// The pieces of `s` from position `i` on, and whether every `${` there is closed.
pub open spec fn plan_from(s: Seq<char>, i: int) -> (Seq<PieceV>, bool)
    decreases s.len() - i,
{
    if i < 0 || i >= s.len() {
        (Seq::<PieceV>::empty(), true)
    } else if s[i] == '$' && i + 1 < s.len() && s[i + 1] == '{' {
        match first_index(s.subrange(i + 2, s.len() as int), '}') {
            None => (Seq::<PieceV>::empty(), false),
            Some(k) => {
                let c = i + 2 + k;
                if 0 <= k && c < s.len() {
                    let r = plan_from(s, c + 1);
                    (seq![PieceV::Expr(s.subrange(i + 2, c))] + r.0, r.1)
                } else {
                    (Seq::<PieceV>::empty(), false)
                }
            },
        }
    } else {
        add_text(seq![s[i]], plan_from(s, i + 1))
    }
}

pub open spec fn interp_spec(s: Seq<char>) -> (Seq<PieceV>, bool) {
    plan_from(s, 0)
}

proof fn lemma_plain_from(s: Seq<char>, i: int)
    requires
        0 <= i < s.len(),
        !has_open(s),
    ensures
        plan_from(s, i) == (seq![PieceV::Text(s.skip(i))], true),
    decreases s.len() - i,
{
    if i + 1 < s.len() {
        assert(!opens_at(s, i));
        lemma_plain_from(s, i + 1);
        assert(seq![s[i]] + s.skip(i + 1) =~= s.skip(i));
        let r = plan_from(s, i + 1);
        assert(r.0.drop_first() =~= Seq::<PieceV>::empty());
        assert(plan_from(s, i).0 =~= seq![PieceV::Text(s.skip(i))]);
    } else {
        assert(s.skip(i) =~= seq![s[i]]);
        assert(plan_from(s, i + 1) == (Seq::<PieceV>::empty(), true));
        assert(seq![PieceV::Text(seq![s[i]])] + Seq::<PieceV>::empty() =~= seq![PieceV::Text(seq![s[i]])]);
        assert(plan_from(s, i).0 =~= seq![PieceV::Text(s.skip(i))]);
    }
}

/// Text with no `${` in it is one literal piece, as written; an opening `${` closed by the
/// first `}` after it is one expression piece holding the text between them.
pub proof fn lemma_interp_pieces(s: Seq<char>, e: Seq<char>)
    requires
        forall|j: int| 0 <= j < e.len() ==> #[trigger] e[j] != '}',
    ensures
        s.len() > 0 && !has_open(s) ==> interp_spec(s) == (seq![PieceV::Text(s)], true),
        interp_spec(seq!['$', '{'] + e + seq!['}']) == (seq![PieceV::Expr(e)], true),
{
    if s.len() > 0 && !has_open(s) {
        lemma_plain_from(s, 0);
        assert(s.skip(0) =~= s);
    }
    let t = seq!['$', '{'] + e + seq!['}'];
    let rest = t.subrange(2, t.len() as int);
    assert(rest =~= e + seq!['}']);
    lemma_first_index(rest, '}');
    assert(rest[e.len() as int] == '}');
    match first_index(rest, '}') {
        Some(k) => {
            if k < e.len() {
                assert(rest[k] == e[k]);
            }
            assert(k == e.len());
        },
        None => {},
    }
    assert(t.subrange(2, 2 + e.len() as int) =~= e);
    assert(t[0] == '$' && t[1] == '{');
    assert(plan_from(t, t.len() as int) == (Seq::<PieceV>::empty(), true));
    assert(plan_from(t, 0).0 =~= seq![PieceV::Expr(e)]);
}

proof fn lemma_add_text_concat(a: Seq<char>, b: Seq<char>, r: (Seq<PieceV>, bool))
    requires
        b.len() > 0,
    ensures
        add_text(a, add_text(b, r)) == add_text(a + b, r),
{
    if a.len() == 0 {
        assert(a + b == b);
    } else {
        if r.0.len() > 0 && r.0[0] is Text {
            assert(a + (b + r.0[0]->Text_0) == (a + b) + r.0[0]->Text_0);
        }
    }
}

/// If `s` is exactly `${ ... }` (no `}` before the last character), the expression inside.
pub fn whole_expression(s: &[char]) -> (r: Option<Vec<char>>)
    ensures
        match (r, whole_spec(s@)) {
            (Some(v), Some(w)) => v@ == w,
            (None, None) => true,
            _ => false,
        },
{
    let n = s.len();
    if n < 3 || s[0] != '$' || s[1] != '{' || s[n - 1] != '}' {
        return None;
    }
    let inner = sub_chars(s, 2, n - 1);
    if find_char(inner.as_slice(), '}').is_some() {
        return None;
    }
    Some(inner)
}

/// The position of the first `}` at or after `start`.
pub fn find_close(s: &[char], start: usize) -> (r: Option<usize>)
    requires
        start <= s.len(),
    ensures
        match (r, first_index(s@.subrange(start as int, s@.len() as int), '}')) {
            (Some(c), Some(k)) => c == start + k && start <= c < s@.len(),
            (None, None) => true,
            _ => false,
        },
{
    let rest = sub_chars(s, start, s.len());
    match find_char(rest.as_slice(), '}') {
        Some(k) => Some(start + k),
        None => None,
    }
}

fn flush_text(pieces: &mut Vec<Piece>, buf: &Vec<char>)
    ensures
        pieces_view(final(pieces)@) == pieces_view(old(pieces)@) + (if buf@.len() == 0 {
            Seq::<PieceV>::empty()
        } else {
            seq![PieceV::Text(buf@)]
        }),
{
    if buf.len() > 0 {
        let p = Piece::Text(string_from(buf));
        pieces.push(p);
        assert(pieces_view(pieces@) == pieces_view(old(pieces)@) + seq![p@]);
    } else {
        assert(pieces_view(pieces@) == pieces_view(old(pieces)@) + Seq::<PieceV>::empty());
    }
}

/// How to interpolate the string `s`: left as it is when it holds no `${`, one typed value
/// when it is exactly one `${expr}` (after trimming), else literal pieces and expressions.
pub fn interp_plan(s: &str) -> (r: Interp)
    ensures
        !has_open(s@) ==> r matches Interp::Plain,
        has_open(s@) && whole_spec(trim(s@)) is Some ==> (r matches Interp::Whole(e) && e@
            == whole_spec(trim(s@))->0),
        has_open(s@) && whole_spec(trim(s@)) is None ==> (r matches Interp::Pieces(p, closed)
            && pieces_view(p@) == interp_spec(s@).0 && closed == interp_spec(s@).1),
{
    let v = chars_of(s);
    let n = v.len();
    let mut found = false;
    let mut k: usize = 0;
    while k + 1 < n
        invariant
            n == v@.len(),
            v@ == s@,
            found == exists|j: int| 0 <= j < k && #[trigger] opens_at(v@, j),
            k + 1 <= n || k == 0,
        decreases n - k,
    {
        if v[k] == '$' && v[k + 1] == '{' {
            found = true;
        }
        assert(opens_at(v@, k as int) == (v@[k as int] == '$' && v@[k + 1] == '{'));
        k += 1;
    }
    if !found {
        return Interp::Plain;
    }
    let t = trimmed(&v);
    if let Some(inner) = whole_expression(t.as_slice()) {
        return Interp::Whole(string_from(&inner));
    }
    let mut pieces: Vec<Piece> = Vec::new();
    let mut buf: Vec<char> = Vec::new();
    let mut i: usize = 0;
    while i < n
        invariant
            i <= n,
            n == v@.len(),
            v@ == s@,
            has_open(s@),
            whole_spec(trim(s@)) is None,
            interp_spec(s@) == ({
                let r = add_text(buf@, plan_from(v@, i as int));
                (pieces_view(pieces@) + r.0, r.1)
            }),
        decreases n - i,
    {
        if v[i] == '$' && i + 1 < n && v[i + 1] == '{' {
            match find_close(v.as_slice(), i + 2) {
                None => {
                    let ghost before = pieces@;
                    flush_text(&mut pieces, &buf);
                    assert(pieces_view(pieces@) + Seq::<PieceV>::empty() == pieces_view(pieces@));
                    return Interp::Pieces(pieces, false);
                },
                Some(c) => {
                    let ghost before = pieces@;
                    flush_text(&mut pieces, &buf);
                    let e = sub_chars(v.as_slice(), i + 2, c);
                    let p = Piece::Expr(string_from(&e));
                    let ghost mid = pieces@;
                    pieces.push(p);
                    proof {
                        let r = plan_from(v@, c + 1);
                        assert(plan_from(v@, i as int) == (seq![PieceV::Expr(e@)] + r.0, r.1));
                        assert(pieces_view(pieces@) == pieces_view(mid) + seq![p@]);
                        assert(pieces_view(pieces@) + r.0 == pieces_view(before) + add_text(
                            buf@,
                            (seq![p@] + r.0, r.1),
                        ).0);
                    }
                    buf = Vec::new();
                    i = c + 1;
                },
            }
        } else {
            let ghost old_buf = buf@;
            buf.push(v[i]);
            proof {
                lemma_add_text_concat(old_buf, seq![v@[i as int]], plan_from(v@, i + 1));
                assert(buf@ == old_buf + seq![v@[i as int]]);
            }
            i += 1;
        }
    }
    flush_text(&mut pieces, &buf);
    assert(pieces_view(pieces@) + Seq::<PieceV>::empty() == pieces_view(pieces@));
    Interp::Pieces(pieces, true)
}

// ---------------------------------------------------------------------------
// Plain YAML scalars
// ---------------------------------------------------------------------------

/// What a plain YAML scalar's text stands for, before any reading as a floating-point number.
#[derive(Debug, Clone, Copy, PartialEq, Eq, Structural)]
pub enum ScalarRepr {
    /// `null`, `~`, or nothing.
    Null,
    /// `true` or `false`.
    Bool(bool),
    /// A decimal integer that `i64` holds.
    Int(i64),
    /// Anything else: a floating-point number or a string.
    Other,
}

/// `i64::from_str`: an optional sign, then one or more digits, within range.
pub open spec fn parse_i64_spec(s: Seq<char>) -> Option<i64> {
    let neg = s.len() > 0 && s[0] == '-';
    let d = if s.len() > 0 && (s[0] == '+' || s[0] == '-') {
        s.drop_first()
    } else {
        s
    };
    if d.len() > 0 && all_decimal(d) && decimal_value(d) <= (if neg {
        0x8000_0000_0000_0000nat
    } else {
        0x7fff_ffff_ffff_ffffnat
    }) {
        Some(
            if neg {
                (0 - decimal_value(d)) as i64
            } else {
                decimal_value(d) as i64
            },
        )
    } else {
        None
    }
}

/// The reading of a plain scalar's text: the null and boolean words, then an `i64`.
pub open spec fn scalar_repr_spec(s: Seq<char>) -> ScalarRepr {
    if s.len() == 0 || s == "null"@ || s == "~"@ {
        ScalarRepr::Null
    } else if s == "true"@ {
        ScalarRepr::Bool(true)
    } else if s == "false"@ {
        ScalarRepr::Bool(false)
    } else {
        match parse_i64_spec(s) {
            Some(i) => ScalarRepr::Int(i),
            None => ScalarRepr::Other,
        }
    }
}

/// How plain scalar text is read: nothing, `null` and `~` are null, `true` and `false` the
/// booleans, and decimal digits (with an optional sign) the integer they spell, as far as
/// `i64` holds it.
pub proof fn lemma_scalar_reading(d: Seq<char>)
    requires
        d.len() > 0,
        all_decimal(d),
    ensures
        scalar_repr_spec(Seq::empty()) == ScalarRepr::Null,
        scalar_repr_spec("null"@) == ScalarRepr::Null,
        scalar_repr_spec("~"@) == ScalarRepr::Null,
        scalar_repr_spec("true"@) == ScalarRepr::Bool(true),
        scalar_repr_spec("false"@) == ScalarRepr::Bool(false),
        decimal_value(d) <= i64::MAX ==> (scalar_repr_spec(d) matches ScalarRepr::Int(i) && i
            == decimal_value(d)),
        decimal_value(d) <= i64::MAX ==> (scalar_repr_spec(seq!['+'] + d) matches ScalarRepr::Int(i)
            && i == decimal_value(d)),
        decimal_value(d) <= 0x8000_0000_0000_0000 ==> (scalar_repr_spec(seq!['-'] + d) matches ScalarRepr::Int(
            i,
        ) && i == -(decimal_value(d) as int)),
        decimal_value(d) > 0x8000_0000_0000_0000 ==> scalar_repr_spec(seq!['-'] + d) == ScalarRepr::Other,
{
    reveal_strlit("null");
    reveal_strlit("~");
    reveal_strlit("true");
    reveal_strlit("false");
    assert("null"@[0] != "~"@[0]);
    assert("true"@.len() != "null"@.len() || "true"@[0] != "null"@[0]);
    assert("true"@.len() != "~"@.len());
    assert("false"@.len() != "null"@.len());
    assert("false"@.len() != "true"@.len());
    assert("false"@.len() != "~"@.len());
    assert(crate::text_util::is_digit(d[0]));
    assert(d[0] != "null"@[0] && d[0] != "~"@[0] && d[0] != "true"@[0] && d[0] != "false"@[0]);
    let sp = seq!['+'] + d;
    let sm = seq!['-'] + d;
    assert(sp[0] == '+' && sm[0] == '-');
    assert(sp.drop_first() =~= d);
    assert(sm.drop_first() =~= d);
    assert(sp[0] != "null"@[0] && sp[0] != "~"@[0] && sp[0] != "true"@[0] && sp[0] != "false"@[0]);
    assert(sm[0] != "null"@[0] && sm[0] != "~"@[0] && sm[0] != "true"@[0] && sm[0] != "false"@[0]);
    assert(d[0] != '+' && d[0] != '-');
}

/// Parse a decimal `i64` the way `str::parse::<i64>` does.
pub fn parse_i64(s: &[char]) -> (r: Option<i64>)
    ensures
        r == parse_i64_spec(s@),
{
    let neg = s.len() > 0 && s[0] == '-';
    let start: usize = if s.len() > 0 && (s[0] == '+' || s[0] == '-') { 1 } else { 0 };
    let d = sub_chars(s, start, s.len());
    let ghost dv = if s@.len() > 0 && (s@[0] == '+' || s@[0] == '-') { s@.drop_first() } else { s@ };
    assert(d@ == dv);
    if d.len() == 0 {
        return None;
    }
    let limit: u128 = if neg { 0x8000_0000_0000_0000 } else { 0x7fff_ffff_ffff_ffff };
    let mut value: u128 = 0;
    let mut i: usize = 0;
    while i < d.len()
        invariant
            i <= d.len(),
            d@ == dv,
            dv == (if s@.len() > 0 && (s@[0] == '+' || s@[0] == '-') { s@.drop_first() } else { s@ }),
            neg == (s@.len() > 0 && s@[0] == '-'),
            limit == (if neg { 0x8000_0000_0000_0000u128 } else { 0x7fff_ffff_ffff_ffffu128 }),
            dv.len() > 0,
            value == decimal_value(dv.take(i as int)),
            value <= limit,
            all_decimal(dv.take(i as int)),
        decreases d.len() - i,
    {
        let c = d[i];
        if !('0' <= c && c <= '9') {
            assert(!crate::text_util::is_digit(dv[i as int]));
            return None;
        }
        assert(dv.take(i + 1).drop_last() == dv.take(i as int));
        value = value * 10 + ((c as u32) - ('0' as u32)) as u128;
        i += 1;
        if value > limit {
            proof {
                if all_decimal(dv) {
                    crate::update::lemma_decimal_prefix(dv, i as int);
                }
            }
            return None;
        }
    }
    assert(dv.take(i as int) == dv);
    if neg {
        if value == 0x8000_0000_0000_0000 {
            Some(i64::MIN)
        } else {
            Some(-(value as i64))
        }
    } else {
        Some(value as i64)
    }
}

/// Read a plain scalar's text: `null`, `~` and the empty text are null, `true` and `false`
/// are booleans, a decimal `i64` is an integer; anything else is left to be read as a
/// floating-point number or kept as a string.
pub fn scalar_repr(s: &str) -> (r: ScalarRepr)
    ensures
        r == scalar_repr_spec(s@),
{
    let v = chars_of(s);
    if v.len() == 0 || eq_str(v.as_slice(), "null") || eq_str(v.as_slice(), "~") {
        ScalarRepr::Null
    } else if eq_str(v.as_slice(), "true") {
        ScalarRepr::Bool(true)
    } else if eq_str(v.as_slice(), "false") {
        ScalarRepr::Bool(false)
    } else {
        match parse_i64(v.as_slice()) {
            Some(i) => ScalarRepr::Int(i),
            None => ScalarRepr::Other,
        }
    }
}

// ---------------------------------------------------------------------------
// Size words
// ---------------------------------------------------------------------------

/// The reading of a size written as text (`width: auto`, `width: "grow: 2"`, `width: "120"`).
#[derive(Debug, Clone, PartialEq)]
pub enum SizeWord {
    /// `auto`, in any case.
    Auto,
    /// `grow`, with the text of its weight (possibly empty) after any `:` and spaces.
    Grow(String),
    /// Anything else: the trimmed text, to be read as a number.
    Value(String),
}

pub enum SizeWordV {
    Auto,
    Grow(Seq<char>),
    Value(Seq<char>),
}

impl View for SizeWord {
    type V = SizeWordV;

    open spec fn view(&self) -> SizeWordV {
        match self {
            SizeWord::Auto => SizeWordV::Auto,
            SizeWord::Grow(w) => SizeWordV::Grow(w@),
            SizeWord::Value(t) => SizeWordV::Value(t@),
        }
    }
}

/// Leading `:` and spaces removed (`trim_start_matches([':', ' '])`).
pub open spec fn strip_colons(s: Seq<char>) -> Seq<char>
    decreases s.len(),
{
    if s.len() > 0 && (s[0] == ':' || s[0] == ' ') {
        strip_colons(s.drop_first())
    } else {
        s
    }
}

pub open spec fn size_word_spec(s: Seq<char>) -> SizeWordV {
    let t = trim(s);
    if eq_ignore_case(t, "auto"@) {
        SizeWordV::Auto
    } else if t.len() >= 4 && t.take(4) == "grow"@ {
        SizeWordV::Grow(trim(strip_colons(t.skip(4))))
    } else {
        SizeWordV::Value(t)
    }
}

/// The size words: `auto` in any case sizes to content, and `grow` alone, or followed by `:` or
/// spaces and a weight, grows by that weight; white space around the whole is ignored.
pub proof fn lemma_size_words(s: Seq<char>, w: Seq<char>)
    requires
        w.len() > 0,
        w[0] != ':' && w[0] != ' ',
        trim(w) == w,
    ensures
        eq_ignore_case(trim(s), "auto"@) ==> size_word_spec(s) == SizeWordV::Auto,
        trim(s) == "grow"@ ==> size_word_spec(s) == SizeWordV::Grow(Seq::empty()),
        trim(s) == "grow"@ + seq![':'] + w ==> size_word_spec(s) == SizeWordV::Grow(w),
        trim(s) == "grow"@ + seq![' '] + w ==> size_word_spec(s) == SizeWordV::Grow(w),
        trim(s) == "grow"@ + seq![':', ' '] + w ==> size_word_spec(s) == SizeWordV::Grow(w),
{
    reveal_strlit("auto");
    reveal_strlit("grow");
    let t = trim(s);
    assert(lower_seq("auto"@) =~= "auto"@);
    assert(strip_colons(w) == w);
    assert(strip_colons(Seq::<char>::empty()) == Seq::<char>::empty());
    assert(trim(Seq::<char>::empty()) =~= Seq::<char>::empty()) by {
        assert(crate::text_util::trim_start(Seq::<char>::empty()) == Seq::<char>::empty());
        assert(crate::text_util::trim_end(Seq::<char>::empty()) == Seq::<char>::empty());
    }
    if t == "grow"@ {
        assert(lower_seq(t)[0] == 'g');
        assert(t.take(4) =~= "grow"@);
        assert(t.skip(4) =~= Seq::<char>::empty());
    }
    if t == "grow"@ + seq![':'] + w {
        assert(lower_seq(t)[0] == 'g');
        assert(t.take(4) =~= "grow"@);
        assert(t.skip(4) =~= seq![':'] + w);
        assert((seq![':'] + w).drop_first() =~= w);
    }
    if t == "grow"@ + seq![' '] + w {
        assert(lower_seq(t)[0] == 'g');
        assert(t.take(4) =~= "grow"@);
        assert(t.skip(4) =~= seq![' '] + w);
        assert((seq![' '] + w).drop_first() =~= w);
    }
    if t == "grow"@ + seq![':', ' '] + w {
        assert(lower_seq(t)[0] == 'g');
        assert(t.take(4) =~= "grow"@);
        assert(t.skip(4) =~= seq![':', ' '] + w);
        assert((seq![':', ' '] + w).drop_first() =~= seq![' '] + w);
        assert((seq![' '] + w).drop_first() =~= w);
        assert(strip_colons(seq![' '] + w) == w);
        assert(strip_colons(seq![':', ' '] + w) == w);
    }
}

/// Read a size written as text: surrounding white space is ignored; `auto` (any case) sizes to
/// content; `grow` takes an optional weight after `:` or spaces; anything else is a value.
pub fn size_word(s: &str) -> (r: SizeWord)
    ensures
        r@ == size_word_spec(s@),
{
    let all = chars_of(s);
    let t = trimmed(&all);
    if eq_ignore_case_str(t.as_slice(), "auto") {
        return SizeWord::Auto;
    }
    if t.len() >= 4 {
        let head = sub_chars(t.as_slice(), 0, 4);
        if eq_str(head.as_slice(), "grow") {
            assert(head@ == t@.take(4));
            let n = t.len();
            let mut i: usize = 4;
            assert(t@.subrange(4, n as int) == t@.skip(4));
            while i < n && (t[i] == ':' || t[i] == ' ')
                invariant
                    4 <= i <= n,
                    n == t@.len(),
                    strip_colons(t@.subrange(i as int, n as int)) == strip_colons(t@.skip(4)),
                decreases n - i,
            {
                assert(t@.subrange(i as int, n as int).drop_first() == t@.subrange(i + 1, n as int));
                i += 1;
            }
            let rest = sub_chars(t.as_slice(), i, n);
            assert(strip_colons(rest@) == rest@);
            let w = trimmed(&rest);
            return SizeWord::Grow(string_from(&w));
        }
        assert(head@ == t@.take(4));
    }
    SizeWord::Value(string_from(&t))
}

} // verus!
