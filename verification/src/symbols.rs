//! Symbol property kinds and port directions.
use vstd::prelude::*;
use crate::text_util::{chars_of, push_chars, string_from};

verus! {

/// The kind of a symbol property, used for validation and documentation.
#[derive(Debug, Clone, PartialEq)]
pub enum PropKind {
    Number,
    Text,
    Bool,
    /// A list of values (e.g. a list of pin names).
    List,
    /// One of a fixed set of string values.
    Enum(&'static [&'static str]),
}

/// The outward direction a port faces, used when routing connections.
#[derive(Debug, Clone, Copy, PartialEq, Eq, Structural)]
pub enum Dir {
    Left,
    Right,
    Up,
    Down,
}

/// The direction opposite to `d`.
pub open spec fn opposite(d: Dir) -> Dir {
    match d {
        Dir::Left => Dir::Right,
        Dir::Right => Dir::Left,
        Dir::Up => Dir::Down,
        Dir::Down => Dir::Up,
    }
}

/// The words `ws` joined by `sep`.
pub open spec fn join(ws: Seq<Seq<char>>, sep: Seq<char>) -> Seq<char>
    decreases ws.len(),
{
    if ws.len() == 0 {
        Seq::<char>::empty()
    } else if ws.len() == 1 {
        ws[0]
    } else {
        join(ws.drop_last(), sep) + sep + ws.last()
    }
}

/// How `symbols describe` names a property kind.
pub open spec fn kind_text(kind: PropKind) -> Seq<char> {
    match kind {
        PropKind::Number => "number"@,
        PropKind::Text => "text"@,
        PropKind::Bool => "bool"@,
        PropKind::List => "list"@,
        PropKind::Enum(values) => "enum("@ + join(values@.map_values(|v: &str| v@), "|"@) + ")"@,
    }
}

/// The name of a property kind, e.g. `number` or `enum(left|right)`.
pub fn prop_kind_str(kind: &PropKind) -> (s: String)
    ensures
        s@ == kind_text(*kind),
{
    match kind {
        PropKind::Number => string_from(&chars_of("number")),
        PropKind::Text => string_from(&chars_of("text")),
        PropKind::Bool => string_from(&chars_of("bool")),
        PropKind::List => string_from(&chars_of("list")),
        PropKind::Enum(values) => {
            let ghost ws = values@.map_values(|v: &str| v@);
            let mut s = string_from(&chars_of("enum("));
            let ghost start = s@;
            let mut i: usize = 0;
            while i < values.len()
                invariant
                    i <= values@.len(),
                    ws == values@.map_values(|v: &str| v@),
                    s@ == start + join(ws.take(i as int), "|"@),
                decreases values.len() - i,
            {
                if i > 0 {
                    push_chars(&mut s, chars_of("|").as_slice());
                }
                push_chars(&mut s, chars_of(values[i]).as_slice());
                proof {
                    let t = ws.take(i + 1);
                    assert(t.drop_last() == ws.take(i as int));
                    assert(t.last() == values@[i as int]@);
                    if i == 0 {
                        assert(join(t, "|"@) == t[0]);
                    }
                }
                i += 1;
            }
            push_chars(&mut s, chars_of(")").as_slice());
            assert(ws.take(values@.len() as int) == ws);
            s
        },
    }
}

} // verus!
