//! SVG path data (`M0 0 L10 0 l0 10 Z`): its tokens, and the grammar of commands and their groups of coordinates.
//!
//! Commands are ASCII letters other than `e`/`E`; numbers are decimal literals with an
//! optional sign and exponent; white space and commas separate them.
use vstd::prelude::*;
use crate::error::{debug_char, debug_str, debug_text, Error};
use crate::text_util::{chars_of, is_alpha_ascii, is_digit, is_whitespace, is_ws, push_chars, string_from, sub_chars};
use crate::expr::count_dots;

verus! {

pub open spec fn is_sep(c: char) -> bool {
    is_ws(c) || c == ','
}

/// A path command letter.
pub open spec fn is_command(c: char) -> bool {
    is_alpha_ascii(c) && c != 'e' && c != 'E'
}

pub open spec fn is_sign(c: char) -> bool {
    c == '+' || c == '-'
}

pub open spec fn is_exp_mark(c: char) -> bool {
    c == 'e' || c == 'E'
}

/// The characters a path number may be made of.
pub open spec fn numeric(c: char) -> bool {
    is_digit(c) || c == '.' || is_exp_mark(c) || is_sign(c)
}

/// The position after the separators that start at `i`.
pub open spec fn sep_end(s: Seq<char>, i: int) -> int
    decreases s.len() - i,
{
    if 0 <= i < s.len() && is_sep(s[i]) {
        sep_end(s, i + 1)
    } else {
        i
    }
}

/// The end of a number's body that starts at `i`: numeric characters, where a sign is taken
/// only right after an exponent mark.
pub open spec fn number_end(s: Seq<char>, i: int) -> int
    decreases s.len() - i,
{
    if 0 <= i < s.len() && numeric(s[i]) && !(is_sign(s[i]) && !(i > 0 && is_exp_mark(s[i - 1]))) {
        number_end(s, i + 1)
    } else {
        i
    }
}

pub open spec fn all_digits(s: Seq<char>) -> bool {
    forall|k: int| 0 <= k < s.len() ==> is_digit(#[trigger] s[k])
}

pub open spec fn has_digit(s: Seq<char>) -> bool {
    exists|k: int| 0 <= k < s.len() && is_digit(#[trigger] s[k])
}

/// Digits with at most one dot, and at least one digit.
pub open spec fn is_mantissa(m: Seq<char>) -> bool {
    &&& forall|k: int| 0 <= k < m.len() ==> (is_digit(#[trigger] m[k]) || m[k] == '.')
    &&& count_dots(m) <= 1
    &&& has_digit(m)
}

/// An optional sign followed by one or more digits.
pub open spec fn is_exponent(x: Seq<char>) -> bool {
    let d = if x.len() > 0 && is_sign(x[0]) {
        x.drop_first()
    } else {
        x
    };
    d.len() > 0 && all_digits(d)
}

/// The index of the first exponent mark in `b`, if any.
pub open spec fn first_exp_mark(b: Seq<char>) -> Option<int>
    decreases b.len(),
{
    if b.len() == 0 {
        None
    } else if is_exp_mark(b.last()) {
        match first_exp_mark(b.drop_last()) {
            Some(k) => Some(k),
            None => Some(b.len() - 1),
        }
    } else {
        first_exp_mark(b.drop_last())
    }
}

/// A decimal floating-point literal: optional sign, a mantissa, an optional exponent.
pub open spec fn valid_float(lit: Seq<char>) -> bool {
    let b = if lit.len() > 0 && is_sign(lit[0]) {
        lit.drop_first()
    } else {
        lit
    };
    match first_exp_mark(b) {
        None => is_mantissa(b),
        Some(k) => is_mantissa(b.take(k)) && is_exponent(b.skip(k + 1)),
    }
}

pub proof fn lemma_sep_end(s: Seq<char>, i: int)
    ensures
        i <= sep_end(s, i),
        0 <= i <= s.len() ==> sep_end(s, i) <= s.len(),
        sep_end(s, sep_end(s, i)) == sep_end(s, i),
        0 <= sep_end(s, i) < s.len() ==> !is_sep(s[sep_end(s, i)]),
    decreases s.len() - i,
{
    if 0 <= i < s.len() && is_sep(s[i]) {
        lemma_sep_end(s, i + 1);
    }
}

proof fn lemma_number_end(s: Seq<char>, i: int)
    requires
        0 <= i <= s.len(),
    ensures
        i <= number_end(s, i) <= s.len(),
    decreases s.len() - i,
{
    if i < s.len() && numeric(s[i]) && !(is_sign(s[i]) && !(i > 0 && is_exp_mark(s[i - 1]))) {
        lemma_number_end(s, i + 1);
    }
}

/// A cursor over the characters of a path's data.
pub struct PathTokenizer {
    chars: Vec<char>,
    i: usize,
}

impl PathTokenizer {
    /// The characters being read.
    pub closed spec fn text(&self) -> Seq<char> {
        self.chars@
    }

    /// The read position.
    pub closed spec fn pos(&self) -> int {
        self.i as int
    }

    pub fn new(s: &str) -> (t: Self)
        ensures
            t.text() == s@,
            t.pos() == 0,
    {
        PathTokenizer { chars: chars_of(s), i: 0 }
    }

    /// Skip white space and commas.
    pub fn skip_sep(&mut self)
        ensures
            final(self).text() == old(self).text(),
            final(self).pos() == sep_end(old(self).text(), old(self).pos()),
    {
        let ghost s = self.chars@;
        let ghost i0 = self.i as int;
        while self.i < self.chars.len() && (is_whitespace(self.chars[self.i]) || self.chars[self.i] == ',')
            invariant
                self.chars@ == s,
                self.i <= s.len() || self.i == i0,
                sep_end(s, self.i as int) == sep_end(s, i0),
            decreases self.chars.len() - self.i,
        {
            self.i += 1;
        }
    }

    /// The command letter at the next token, if the next token is a command.
    pub fn peek_command(&mut self) -> (c: Option<char>)
        ensures
            final(self).text() == old(self).text(),
            final(self).pos() == sep_end(old(self).text(), old(self).pos()),
            ({
                let s = old(self).text();
                let j = final(self).pos();
                c == if 0 <= j < s.len() && is_command(s[j]) {
                    Some(s[j])
                } else {
                    None::<char>
                }
            }),
    {
        self.skip_sep();
        if self.i >= self.chars.len() {
            return None;
        }
        let c = self.chars[self.i];
        if (('a' <= c && c <= 'z') || ('A' <= c && c <= 'Z')) && c != 'e' && c != 'E' {
            Some(c)
        } else {
            None
        }
    }

    /// Step past the current character.
    pub fn advance(&mut self)
        requires
            old(self).pos() < usize::MAX,
        ensures
            final(self).text() == old(self).text(),
            final(self).pos() == old(self).pos() + 1,
    {
        self.i += 1;
    }

    /// True once only separators remain.
    pub fn is_done(&mut self) -> (b: bool)
        ensures
            final(self).text() == old(self).text(),
            final(self).pos() == sep_end(old(self).text(), old(self).pos()),
            b == (final(self).pos() >= old(self).text().len()),
    {
        self.skip_sep();
        self.i >= self.chars.len()
    }

    /// Read the next number literal. `Ok(None)` when the next token is a command or the data
    /// has ended; an error when the characters there do not form a number.
    pub fn number(&mut self) -> (r: Result<Option<String>, Error>)
        ensures
            final(self).text() == old(self).text(),
            ({
                let s = old(self).text();
                let j = sep_end(s, old(self).pos());
                if j >= s.len() || (0 <= j && is_command(s[j])) {
                    r matches Ok(None) && final(self).pos() == j
                } else {
                    let k = if is_sign(s[j]) { j + 1 } else { j };
                    let e = number_end(s, k);
                    let lit = s.subrange(j, e);
                    &&& final(self).pos() == e
                    &&& valid_float(lit) ==> (r matches Ok(Some(t)) && t@ == lit)
                    &&& !valid_float(lit) ==> (r matches Err(Error::Parse(m)) && m@
                        == "invalid number in path: "@ + debug_text(lit))
                }
            }),
    {
        proof {
            lemma_sep_end(old(self).text(), old(self).pos());
        }
        self.skip_sep();
        if self.peek_command().is_some() || self.i >= self.chars.len() {
            return Ok(None);
        }
        let ghost s = self.chars@;
        let start = self.i;
        if self.chars[self.i] == '+' || self.chars[self.i] == '-' {
            self.i += 1;
        }
        let ghost k = self.i as int;
        while self.i < self.chars.len()
            invariant
                self.chars@ == s,
                start <= k <= self.i <= s.len(),
                number_end(s, self.i as int) == number_end(s, k),
            ensures
                self.chars@ == s,
                start <= k <= self.i <= s.len(),
                number_end(s, k) == self.i,
            decreases self.chars.len() - self.i,
        {
            let c = self.chars[self.i];
            if ('0' <= c && c <= '9') || c == '.' || c == 'e' || c == 'E' || c == '+' || c == '-' {
                if (c == '+' || c == '-') && !(self.i > 0 && (self.chars[self.i - 1] == 'e'
                    || self.chars[self.i - 1] == 'E')) {
                    break;
                }
                self.i += 1;
            } else {
                break;
            }
        }
        proof {
            lemma_number_end(s, k);
        }
        let lit = sub_chars(self.chars.as_slice(), start, self.i);
        if is_float_literal(&lit) {
            Ok(Some(string_from(&lit)))
        } else {
            let text = string_from(&lit);
            let shown = debug_str(text.as_str());
            let mut m = string_from(&chars_of("invalid number in path: "));
            push_chars(&mut m, chars_of(shown.as_str()).as_slice());
            Err(Error::Parse(m))
        }
    }
}

/// The error for a path command that ran out of coordinates.
pub fn path_err(cmd: &str) -> (e: Error)
    ensures
        e matches Error::Parse(m) && m@ == "path command "@ + cmd@ + " has too few coordinates"@,
{
    let mut m = string_from(&chars_of("path command "));
    push_chars(&mut m, chars_of(cmd).as_slice());
    push_chars(&mut m, chars_of(" has too few coordinates").as_slice());
    Error::Parse(m)
}

fn is_float_literal(lit: &Vec<char>) -> (b: bool)
    ensures
        b == valid_float(lit@),
{
    let ghost l = lit@;
    let skip: usize = if lit.len() > 0 && (lit[0] == '+' || lit[0] == '-') { 1 } else { 0 };
    let b = sub_chars(lit.as_slice(), skip, lit.len());
    assert(b@ == (if l.len() > 0 && is_sign(l[0]) { l.drop_first() } else { l }));
    match find_exp_mark(&b) {
        None => is_mantissa_exec(b.as_slice()),
        Some(k) => {
            let m = sub_chars(b.as_slice(), 0, k);
            let x = sub_chars(b.as_slice(), k + 1, b.len());
            assert(m@ == b@.take(k as int));
            assert(x@ == b@.skip(k + 1));
            is_mantissa_exec(m.as_slice()) && is_exponent_exec(x.as_slice())
        },
    }
}

proof fn lemma_first_exp_mark(b: Seq<char>)
    ensures
        match first_exp_mark(b) {
            Some(k) => 0 <= k < b.len() && is_exp_mark(b[k]) && forall|j: int|
                0 <= j < k ==> !is_exp_mark(#[trigger] b[j]),
            None => forall|j: int| 0 <= j < b.len() ==> !is_exp_mark(#[trigger] b[j]),
        },
    decreases b.len(),
{
    if b.len() > 0 {
        lemma_first_exp_mark(b.drop_last());
        assert forall|j: int| 0 <= j < b.len() - 1 implies b.drop_last()[j] == b[j] by {}
    }
}

fn find_exp_mark(b: &Vec<char>) -> (r: Option<usize>)
    ensures
        match r {
            Some(k) => first_exp_mark(b@) == Some(k as int) && k < b@.len(),
            None => first_exp_mark(b@) is None,
        },
{
    proof {
        lemma_first_exp_mark(b@);
    }
    let mut i: usize = 0;
    while i < b.len()
        invariant
            i <= b.len(),
            forall|j: int| 0 <= j < i ==> !is_exp_mark(#[trigger] b@[j]),
        decreases b.len() - i,
    {
        if b[i] == 'e' || b[i] == 'E' {
            proof {
                lemma_first_exp_mark(b@);
                match first_exp_mark(b@) {
                    Some(k) => {
                        if k < i {
                            assert(!is_exp_mark(b@[k]));
                        }
                        if k > i {
                            assert(!is_exp_mark(b@[i as int]));
                        }
                    },
                    None => {
                        assert(!is_exp_mark(b@[i as int]));
                    },
                }
            }
            return Some(i);
        }
        i += 1;
    }
    None
}

fn is_mantissa_exec(m: &[char]) -> (r: bool)
    ensures
        r == is_mantissa(m@),
{
    let mut dots: usize = 0;
    let mut digit = false;
    let mut i: usize = 0;
    while i < m.len()
        invariant
            i <= m.len(),
            dots == count_dots(m@.take(i as int)),
            dots <= i,
            digit == exists|k: int| 0 <= k < i && is_digit(#[trigger] m@[k]),
            forall|k: int| 0 <= k < i ==> (is_digit(#[trigger] m@[k]) || m@[k] == '.'),
        decreases m.len() - i,
    {
        assert(m@.take(i + 1).drop_last() == m@.take(i as int));
        let c = m[i];
        if !(('0' <= c && c <= '9') || c == '.') {
            return false;
        }
        if c == '.' {
            dots = dots + 1;
        } else {
            digit = true;
        }
        i += 1;
    }
    assert(m@.take(i as int) == m@);
    dots <= 1 && digit
}

fn is_exponent_exec(x: &[char]) -> (r: bool)
    ensures
        r == is_exponent(x@),
{
    let skip: usize = if x.len() > 0 && (x[0] == '+' || x[0] == '-') { 1 } else { 0 };
    let d = sub_chars(x, skip, x.len());
    assert(d@ == (if x@.len() > 0 && is_sign(x@[0]) { x@.drop_first() } else { x@ }));
    if d.len() == 0 {
        return false;
    }
    let mut i: usize = 0;
    while i < d.len()
        invariant
            i <= d.len(),
            d@ == (if x@.len() > 0 && is_sign(x@[0]) { x@.drop_first() } else { x@ }),
            d@.len() > 0,
            forall|k: int| 0 <= k < i ==> is_digit(#[trigger] d@[k]),
        decreases d.len() - i,
    {
        if !('0' <= d[i] && d[i] <= '9') {
            assert(!is_digit(d@[i as int]));
            return false;
        }
        i += 1;
    }
    true
}

// ---------------------------------------------------------------------------
// Path data: commands and their coordinates
// ---------------------------------------------------------------------------

/// ASCII uppercase mapping (`char::to_ascii_uppercase`).
pub open spec fn upper(c: char) -> char {
    if 'a' <= c && c <= 'z' {
        ((c as u32) - 32) as char
    } else {
        c
    }
}

/// The text of the error for a malformed number literal.
pub open spec fn bad_number_msg(lit: Seq<char>) -> Seq<char> {
    "invalid number in path: "@ + debug_text(lit)
}

/// The text of the error for a command that runs out of coordinates.
pub open spec fn too_few_msg(cmd: Seq<char>) -> Seq<char> {
    "path command "@ + cmd + " has too few coordinates"@
}

/// What the next number of the path data is, read from position `i`.
pub enum NumRead {
    /// The next token is a command, or the data has ended.
    NoNum,
    /// A number literal, and the position after it.
    Num(Seq<char>, int),
    /// Characters that do not form a number.
    Bad(Seq<char>),
}

pub open spec fn num_at(s: Seq<char>, i: int) -> NumRead {
    let j = sep_end(s, i);
    if j < 0 || j >= s.len() || is_command(s[j]) {
        NumRead::NoNum
    } else {
        let k = if is_sign(s[j]) { j + 1 } else { j };
        let e = number_end(s, k);
        let lit = s.subrange(j, e);
        if valid_float(lit) {
            NumRead::Num(lit, e)
        } else {
            NumRead::Bad(lit)
        }
    }
}

/// What the next group of coordinates of a command is, read from position `i`.
pub enum GroupRead {
    /// No group starts here: the next token is a command, or the data has ended; the position
    /// after the separators.
    NoGroup(int),
    /// The number literals of a group, and the position after them.
    Group(Seq<Seq<char>>, int),
    /// The error that reading the group ends with.
    Fail(Seq<char>),
}

/// A point: two numbers, `x` then `y`.
pub open spec fn point_at(s: Seq<char>, i: int) -> GroupRead {
    match num_at(s, i) {
        NumRead::NoNum => GroupRead::NoGroup(sep_end(s, i)),
        NumRead::Bad(l) => GroupRead::Fail(bad_number_msg(l)),
        NumRead::Num(x, e) => match num_at(s, e) {
            NumRead::NoNum => GroupRead::Fail("path coordinate missing y"@),
            NumRead::Bad(l) => GroupRead::Fail(bad_number_msg(l)),
            NumRead::Num(y, e2) => GroupRead::Group(seq![x, y], e2),
        },
    }
}

/// `n` more points that a command `cmd` needs to complete a group.
pub open spec fn more_points(s: Seq<char>, i: int, n: nat, cmd: Seq<char>) -> GroupRead
    decreases n,
{
    if n == 0 {
        GroupRead::Group(Seq::empty(), i)
    } else {
        match point_at(s, i) {
            GroupRead::NoGroup(_) => GroupRead::Fail(too_few_msg(cmd)),
            GroupRead::Fail(m) => GroupRead::Fail(m),
            GroupRead::Group(a, e) => match more_points(s, e, (n - 1) as nat, cmd) {
                GroupRead::Group(b, e2) => GroupRead::Group(a + b, e2),
                other => other,
            },
        }
    }
}

/// The next group of the (uppercase) command `up`: one number for `H` and `V`, one point for
/// `M` and `L`, two points for `Q`, three for `C`.
pub open spec fn group_at(s: Seq<char>, i: int, up: char) -> GroupRead {
    if up == 'H' || up == 'V' {
        match num_at(s, i) {
            NumRead::NoNum => GroupRead::NoGroup(sep_end(s, i)),
            NumRead::Bad(l) => GroupRead::Fail(bad_number_msg(l)),
            NumRead::Num(x, e) => GroupRead::Group(seq![x], e),
        }
    } else if up == 'C' || up == 'Q' {
        match point_at(s, i) {
            GroupRead::Group(a, e) => match more_points(
                s,
                e,
                if up == 'C' { 2nat } else { 1nat },
                seq![up],
            ) {
                GroupRead::Group(b, e2) => GroupRead::Group(a + b, e2),
                other => other,
            },
            other => other,
        }
    } else {
        point_at(s, i)
    }
}

/// One segment of path data: an uppercase command, whether it was written in lowercase
/// (relative coordinates), and its number literals.
#[derive(Debug, Clone, PartialEq)]
pub struct PathSeg {
    pub cmd: char,
    pub rel: bool,
    pub nums: Vec<String>,
}

pub struct PathSegV {
    pub cmd: char,
    pub rel: bool,
    pub nums: Seq<Seq<char>>,
}

impl View for PathSeg {
    type V = PathSegV;

    open spec fn view(&self) -> PathSegV {
        PathSegV { cmd: self.cmd, rel: self.rel, nums: self.nums@.map_values(|t: String| t@) }
    }
}

pub open spec fn segs_view(v: Seq<PathSeg>) -> Seq<PathSegV> {
    v.map_values(|g: PathSeg| g@)
}

/// How a run of groups of one command ends.
pub enum RunEnd {
    /// At a command or the end of the data (the position after the separators).
    Ended(int),
    /// A moveto without its first point: the whole path ends there.
    Stopped,
    /// With an error.
    Failed(Seq<char>),
}

/// The groups of command `up` from position `i` on, as segments; a moveto's first group is
/// the move and later ones are linetos.
pub open spec fn run_at(s: Seq<char>, i: int, up: char, rel: bool, first: bool) -> (Seq<PathSegV>, RunEnd)
    decreases s.len() - i,
{
    if i < 0 || i > s.len() {
        (Seq::empty(), RunEnd::Ended(i))
    } else {
        match group_at(s, i, up) {
            GroupRead::NoGroup(p) => if first && up == 'M' {
                (Seq::empty(), RunEnd::Stopped)
            } else {
                (Seq::empty(), RunEnd::Ended(p))
            },
            GroupRead::Fail(m) => (Seq::empty(), RunEnd::Failed(m)),
            GroupRead::Group(a, e) => {
                proof {
                    lemma_group_at(s, i, up);
                }
                let g = PathSegV { cmd: if up == 'M' && !first { 'L' } else { up }, rel, nums: a };
                let r = run_at(s, e, up, rel, false);
                (seq![g] + r.0, r.1)
            },
        }
    }
}

pub open spec fn prepend_segs(a: Seq<PathSegV>, r: Result<Seq<PathSegV>, Seq<char>>) -> Result<Seq<PathSegV>, Seq<char>> {
    match r {
        Ok(b) => Ok(a + b),
        Err(m) => Err(m),
    }
}

/// The segments of the path data from position `i` on, where `prev` is the command in force
/// (`' '` before the first). A command letter starts a new command; numbers with no command
/// before them continue the one in force. A closepath takes no coordinates.
pub open spec fn segs_from(s: Seq<char>, i: int, prev: char) -> Result<Seq<PathSegV>, Seq<char>>
    decreases s.len() - i,
{
    if i < 0 || i > s.len() {
        Ok(Seq::empty())
    } else {
        let j = sep_end(s, i);
        let at_cmd = 0 <= j < s.len() && is_command(s[j]);
        if !at_cmd && prev == ' ' {
            Ok(Seq::empty())
        } else {
            let c = if at_cmd { s[j] } else { prev };
            let p = if at_cmd { j + 1 } else { j };
            let up = upper(c);
            let rel = 'a' <= c && c <= 'z';
            if up == 'Z' {
                if !at_cmd {
                    Err("path command Z takes no coordinates"@)
                } else {
                    proof {
                        lemma_sep_end(s, i);
                        lemma_sep_end(s, p);
                    }
                    let q = sep_end(s, p);
                    let z = seq![PathSegV { cmd: 'Z', rel, nums: Seq::empty() }];
                    if q >= s.len() {
                        Ok(z)
                    } else {
                        prepend_segs(z, segs_from(s, q, c))
                    }
                }
            } else if up == 'M' || up == 'L' || up == 'H' || up == 'V' || up == 'C' || up == 'Q' {
                let r = run_at(s, p, up, rel, true);
                match r.1 {
                    RunEnd::Failed(m) => Err(m),
                    RunEnd::Stopped => Ok(r.0),
                    RunEnd::Ended(e) => {
                        proof {
                            lemma_sep_end(s, i);
                            lemma_segs_progress(s, i, up, rel);
                            lemma_sep_end(s, e);
                        }
                        let q = sep_end(s, e);
                        if q >= s.len() {
                            Ok(r.0)
                        } else {
                            prepend_segs(r.0, segs_from(s, q, c))
                        }
                    },
                }
            } else {
                Err("unsupported path command "@ + crate::error::debug_char_text(up))
            }
        }
    }
}

/// The segments of the path data `s`, or the error that reading it ends with.
pub open spec fn path_segments_spec(s: Seq<char>) -> Result<Seq<PathSegV>, Seq<char>> {
    segs_from(s, 0, ' ')
}

proof fn lemma_valid_float_nonempty(lit: Seq<char>)
    requires
        valid_float(lit),
    ensures
        lit.len() > 0,
{
    let b = if lit.len() > 0 && is_sign(lit[0]) { lit.drop_first() } else { lit };
    lemma_first_exp_mark(b);
    match first_exp_mark(b) {
        None => {
            let k = choose|k: int| 0 <= k < b.len() && is_digit(#[trigger] b[k]);
        },
        Some(x) => {
            let m = b.take(x);
            let k = choose|k: int| 0 <= k < m.len() && is_digit(#[trigger] m[k]);
            assert(m.len() <= b.len());
        },
    }
}

proof fn lemma_num_at(s: Seq<char>, i: int)
    requires
        0 <= i <= s.len(),
    ensures
        i <= sep_end(s, i) <= s.len(),
        num_at(s, i) matches NumRead::Num(_, e) ==> i < e <= s.len(),
        (sep_end(s, i) < s.len() && !is_command(s[sep_end(s, i)])) ==> !(num_at(s, i) is NoNum),
        ({
            let j = sep_end(s, i);
            let k = if is_sign(s[j]) { j + 1 } else { j };
            (j < s.len() && !is_command(s[j])) ==> j <= number_end(s, k) <= s.len()
        }),
{
    lemma_sep_end(s, i);
    let j = sep_end(s, i);
    if 0 <= j < s.len() && !is_command(s[j]) {
        let k = if is_sign(s[j]) { j + 1 } else { j };
        lemma_number_end(s, k);
        let e = number_end(s, k);
        let lit = s.subrange(j, e);
        if valid_float(lit) {
            lemma_valid_float_nonempty(lit);
        }
    }
}

proof fn lemma_point_at(s: Seq<char>, i: int)
    requires
        0 <= i <= s.len(),
    ensures
        point_at(s, i) matches GroupRead::Group(_, e) ==> i < e <= s.len(),
        point_at(s, i) matches GroupRead::NoGroup(p) ==> p == sep_end(s, i) && i <= p <= s.len(),
{
    lemma_num_at(s, i);
    if let NumRead::Num(_, e) = num_at(s, i) {
        lemma_num_at(s, e);
    }
}

proof fn lemma_more_points(s: Seq<char>, i: int, n: nat, cmd: Seq<char>)
    requires
        0 <= i <= s.len(),
    ensures
        more_points(s, i, n, cmd) matches GroupRead::Group(_, e) ==> i <= e <= s.len(),
        !(more_points(s, i, n, cmd) is NoGroup),
    decreases n,
{
    if n > 0 {
        lemma_point_at(s, i);
        if let GroupRead::Group(_, e) = point_at(s, i) {
            lemma_more_points(s, e, (n - 1) as nat, cmd);
        }
    }
}

pub proof fn lemma_group_at(s: Seq<char>, i: int, up: char)
    requires
        0 <= i <= s.len(),
    ensures
        group_at(s, i, up) matches GroupRead::Group(_, e) ==> i < e <= s.len(),
        group_at(s, i, up) matches GroupRead::NoGroup(p) ==> p == sep_end(s, i) && i <= p
            <= s.len(),
        (sep_end(s, i) < s.len() && !is_command(s[sep_end(s, i)])) ==> !(group_at(
            s,
            i,
            up,
        ) is NoGroup),
{
    lemma_num_at(s, i);
    lemma_point_at(s, i);
    if up == 'C' || up == 'Q' {
        if let GroupRead::Group(_, e) = point_at(s, i) {
            lemma_more_points(s, e, if up == 'C' { 2nat } else { 1nat }, seq![up]);
        }
    }
    if (sep_end(s, i) < s.len() && !is_command(s[sep_end(s, i)])) {
        lemma_sep_end(s, i);
        assert(!(num_at(s, i) is NoNum));
    }
}

proof fn lemma_run_at(s: Seq<char>, i: int, up: char, rel: bool, first: bool)
    requires
        0 <= i <= s.len(),
    ensures
        run_at(s, i, up, rel, first).1 matches RunEnd::Ended(e) ==> i <= e <= s.len(),
    decreases s.len() - i,
{
    lemma_group_at(s, i, up);
    if let GroupRead::Group(_, e) = group_at(s, i, up) {
        lemma_run_at(s, e, up, rel, false);
    }
}

/// A command's run ends past where the round began: after the command letter, or after the
/// first group where the numbers continue the command in force.
pub proof fn lemma_segs_progress(s: Seq<char>, i: int, up: char, rel: bool)
    requires
        0 <= i <= s.len(),
    ensures
        ({
            let j = sep_end(s, i);
            let at_cmd = 0 <= j < s.len() && is_command(s[j]);
            let p = if at_cmd { j + 1 } else { j };
            (at_cmd || j < s.len()) ==> (run_at(s, p, up, rel, true).1 matches RunEnd::Ended(e)
                ==> i < e <= s.len())
        }),
{
    lemma_sep_end(s, i);
    let j = sep_end(s, i);
    let at_cmd = 0 <= j < s.len() && is_command(s[j]);
    if at_cmd {
        lemma_run_at(s, j + 1, up, rel, true);
    } else if j < s.len() {
        lemma_sep_end(s, j);
        lemma_group_at(s, j, up);
        if let GroupRead::Group(_, e) = group_at(s, j, up) {
            lemma_run_at(s, e, up, rel, false);
        }
    }
}

/// Segment `g` was read from the command letter `c`: its command is `c` in uppercase (the
/// later points of a moveto being linetos), and its coordinates are relative exactly when `c`
/// is a lowercase letter.
pub open spec fn seg_of_letter(g: PathSegV, c: char) -> bool {
    &&& g.cmd == upper(c) || (upper(c) == 'M' && g.cmd == 'L')
    &&& g.rel == ('a' <= c && c <= 'z')
}

/// `g` was read from one of the command letters written in `s`.
pub open spec fn from_written_letter(s: Seq<char>, g: PathSegV) -> bool {
    exists|j: int| 0 <= j < s.len() && is_command(s[j]) && #[trigger] seg_of_letter(g, s[j])
}

/// The segments of a run of command `up` all carry `up` (or `L` after a moveto's first point)
/// and the run's `rel`.
proof fn lemma_run_letters(s: Seq<char>, i: int, up: char, rel: bool, first: bool)
    requires
        0 <= i <= s.len(),
    ensures
        forall|k: int| 0 <= k < run_at(s, i, up, rel, first).0.len() ==> {
            let g = #[trigger] run_at(s, i, up, rel, first).0[k];
            &&& g.rel == rel
            &&& g.cmd == up || (up == 'M' && g.cmd == 'L')
        },
    decreases s.len() - i,
{
    lemma_group_at(s, i, up);
    if let GroupRead::Group(a, e) = group_at(s, i, up) {
        lemma_run_letters(s, e, up, rel, false);
        let g = PathSegV { cmd: if up == 'M' && !first { 'L' } else { up }, rel, nums: a };
        let r = run_at(s, e, up, rel, false);
        assert(run_at(s, i, up, rel, first).0 == seq![g] + r.0);
        assert forall|k: int| 0 <= k < run_at(s, i, up, rel, first).0.len() implies {
            let h = #[trigger] run_at(s, i, up, rel, first).0[k];
            &&& h.rel == rel
            &&& h.cmd == up || (up == 'M' && h.cmd == 'L')
        } by {
            if k > 0 {
                assert(run_at(s, i, up, rel, first).0[k] == r.0[k - 1]);
            }
        }
    }
}

/// Every segment of the rest of the path data from `i` on comes from a letter written in it,
/// where the command in force, `prev`, is itself a written letter.
proof fn lemma_segs_letters(s: Seq<char>, i: int, prev: char)
    requires
        prev == ' ' || exists|j: int| 0 <= j < s.len() && is_command(s[j]) && s[j] == prev,
    ensures
        segs_from(s, i, prev) matches Ok(w) ==> forall|k: int|
            0 <= k < w.len() ==> from_written_letter(s, #[trigger] w[k]),
    decreases s.len() - i,
{
    if 0 <= i <= s.len() {
        lemma_sep_end(s, i);
        let j = sep_end(s, i);
        let at_cmd = 0 <= j < s.len() && is_command(s[j]);
        if at_cmd || prev != ' ' {
            let c = if at_cmd { s[j] } else { prev };
            let p = if at_cmd { j + 1 } else { j };
            let up = upper(c);
            let rel = 'a' <= c && c <= 'z';
            let jw = if at_cmd {
                j
            } else {
                choose|x: int| 0 <= x < s.len() && is_command(s[x]) && s[x] == prev
            };
            assert(0 <= jw < s.len() && is_command(s[jw]) && s[jw] == c);
            if up == 'Z' {
                if at_cmd {
                    lemma_sep_end(s, p);
                    let q = sep_end(s, p);
                    let zg = PathSegV { cmd: 'Z', rel, nums: Seq::empty() };
                    assert(seg_of_letter(zg, s[jw]));
                    if q < s.len() {
                        lemma_segs_letters(s, q, c);
                        if let Ok(w) = segs_from(s, i, prev) {
                            let rest = segs_from(s, q, c)->Ok_0;
                            assert(w == seq![zg] + rest);
                            assert forall|k: int| 0 <= k < w.len() implies from_written_letter(
                                s,
                                #[trigger] w[k],
                            ) by {
                                if k == 0 {
                                    assert(seg_of_letter(w[k], s[jw]));
                                } else {
                                    assert(w[k] == rest[k - 1]);
                                }
                            }
                        }
                    } else {
                        if let Ok(w) = segs_from(s, i, prev) {
                            assert forall|k: int| 0 <= k < w.len() implies from_written_letter(
                                s,
                                #[trigger] w[k],
                            ) by {
                                assert(seg_of_letter(w[k], s[jw]));
                            }
                        }
                    }
                }
            } else if up == 'M' || up == 'L' || up == 'H' || up == 'V' || up == 'C' || up == 'Q' {
                lemma_run_letters(s, p, up, rel, true);
                let r = run_at(s, p, up, rel, true);
                assert forall|k: int| 0 <= k < r.0.len() implies seg_of_letter(#[trigger] r.0[k], s[jw]) by {
                }
                if let RunEnd::Ended(e) = r.1 {
                    lemma_segs_progress(s, i, up, rel);
                    lemma_sep_end(s, e);
                    let q = sep_end(s, e);
                    if q < s.len() {
                        lemma_segs_letters(s, q, c);
                        if let Ok(w) = segs_from(s, i, prev) {
                            let rest = segs_from(s, q, c)->Ok_0;
                            assert(w == r.0 + rest);
                            assert forall|k: int| 0 <= k < w.len() implies from_written_letter(
                                s,
                                #[trigger] w[k],
                            ) by {
                                if k < r.0.len() {
                                    assert(w[k] == r.0[k]);
                                    assert(seg_of_letter(w[k], s[jw]));
                                } else {
                                    assert(w[k] == rest[k - r.0.len()]);
                                }
                            }
                        }
                    } else {
                        if let Ok(w) = segs_from(s, i, prev) {
                            assert forall|k: int| 0 <= k < w.len() implies from_written_letter(
                                s,
                                #[trigger] w[k],
                            ) by {
                                assert(seg_of_letter(w[k], s[jw]));
                            }
                        }
                    }
                } else if let Ok(w) = segs_from(s, i, prev) {
                    assert forall|k: int| 0 <= k < w.len() implies from_written_letter(
                        s,
                        #[trigger] w[k],
                    ) by {
                        assert(seg_of_letter(w[k], s[jw]));
                    }
                }
            }
        }
    }
}

/// Every segment of path data comes from a command letter written in the data: its command
/// is that letter in uppercase (a moveto's later points being linetos), and its coordinates
/// are relative exactly when the letter is written in lowercase.
pub proof fn lemma_segments_follow_letters(s: Seq<char>)
    ensures
        path_segments_spec(s) matches Ok(w) ==> forall|k: int|
            0 <= k < w.len() ==> from_written_letter(s, #[trigger] w[k]),
{
    lemma_segs_letters(s, 0, ' ');
}

fn to_upper(c: char) -> (r: char)
    ensures
        r == upper(c),
{
    if 'a' <= c && c <= 'z' {
        ((c as u8) - 32) as char
    } else {
        c
    }
}

fn parse_error(text: &str) -> (e: Error)
    ensures
        e matches Error::Parse(m) && m@ == text@,
{
    Error::Parse(string_from(&chars_of(text)))
}

/// A group of coordinates as read: the counterpart of `GroupRead`.
enum GroupGot {
    NoGroup,
    Group(Vec<String>),
    Fail(Error),
}

pub open spec fn strs_view(v: Seq<String>) -> Seq<Seq<char>> {
    v.map_values(|t: String| t@)
}

spec fn got_matches(g: GroupGot, r: GroupRead, after: int) -> bool {
    match (g, r) {
        (GroupGot::NoGroup, GroupRead::NoGroup(p)) => after == p,
        (GroupGot::Group(v), GroupRead::Group(a, e)) => strs_view(v@) == a && after == e,
        (GroupGot::Fail(err), GroupRead::Fail(m)) => err matches Error::Parse(x) && x@ == m,
        _ => false,
    }
}

fn read_point(t: &mut PathTokenizer) -> (g: GroupGot)
    requires
        old(t).pos() <= old(t).text().len(),
    ensures
        final(t).text() == old(t).text(),
        final(t).pos() <= final(t).text().len(),
        got_matches(g, point_at(old(t).text(), old(t).pos()), final(t).pos()),
{
    let ghost s = t.text();
    let ghost i = t.pos();
    proof {
        lemma_num_at(s, i);
        lemma_sep_end(s, i);
    }
    match t.number() {
        Err(e) => GroupGot::Fail(e),
        Ok(None) => GroupGot::NoGroup,
        Ok(Some(x)) => {
            let ghost e1 = t.pos();
            proof {
                lemma_num_at(s, e1);
                lemma_sep_end(s, e1);
            }
            match t.number() {
                Err(e) => GroupGot::Fail(e),
                Ok(None) => {
                    proof {
                        reveal_strlit("path coordinate missing y");
                    }
                    GroupGot::Fail(parse_error("path coordinate missing y"))
                },
                Ok(Some(y)) => {
                    let v = vec![x, y];
                    assert(strs_view(v@) =~= seq![x@, y@]);
                    GroupGot::Group(v)
                },
            }
        },
    }
}

spec fn combine(acc: Seq<Seq<char>>, r: GroupRead) -> GroupRead {
    match r {
        GroupRead::Group(b, e) => GroupRead::Group(acc + b, e),
        other => other,
    }
}

fn read_more_points(t: &mut PathTokenizer, n: usize, up: char) -> (g: GroupGot)
    requires
        old(t).pos() <= old(t).text().len(),
        up == 'C' || up == 'Q',
    ensures
        final(t).text() == old(t).text(),
        final(t).pos() <= final(t).text().len(),
        got_matches(g, more_points(old(t).text(), old(t).pos(), n as nat, seq![up]), final(t).pos()),
{
    let ghost s = t.text();
    let ghost i0 = t.pos();
    let mut acc: Vec<String> = Vec::new();
    let mut k: usize = 0;
    while k < n
        invariant
            s == old(t).text(),
            i0 == old(t).pos(),
            up == 'C' || up == 'Q',
            t.text() == s,
            t.pos() <= s.len(),
            k <= n,
            more_points(s, i0, n as nat, seq![up]) == combine(
                strs_view(acc@),
                more_points(s, t.pos(), (n - k) as nat, seq![up]),
            ),
        decreases n - k,
    {
        let ghost i = t.pos();
        let ghost m = (n - k) as nat;
        proof {
            lemma_point_at(s, i);
            assert(m > 0);
            assert(more_points(s, i, m, seq![up]) == match point_at(s, i) {
                GroupRead::NoGroup(_) => GroupRead::Fail(too_few_msg(seq![up])),
                GroupRead::Fail(x) => GroupRead::Fail(x),
                GroupRead::Group(a, e) => combine(a, more_points(s, e, (m - 1) as nat, seq![up])),
            });
        }
        match read_point(t) {
            GroupGot::NoGroup => {
                proof {
                    reveal_strlit("C");
                    reveal_strlit("Q");
                }
                let name: &str = if up == 'C' { "C" } else { "Q" };
                let e = path_err(name);
                proof {
                    assert(("C"@) =~= seq!['C']);
                    assert(("Q"@) =~= seq!['Q']);
                    assert(name@ =~= seq![up]);
                }
                return GroupGot::Fail(e);
            },
            GroupGot::Fail(e) => {
                return GroupGot::Fail(e);
            },
            GroupGot::Group(v) => {
                let ghost before = strs_view(acc@);
                let ghost vv = strs_view(v@);
                let mut v = v;
                acc.append(&mut v);
                proof {
                    assert(strs_view(acc@) =~= before + vv);
                    let rest = more_points(s, t.pos(), (m - 1) as nat, seq![up]);
                    if let GroupRead::Group(b, e2) = rest {
                        assert(before + (vv + b) == (before + vv) + b);
                    }
                    assert((n - (k + 1)) as nat == (m - 1) as nat);
                }
            },
        }
        k += 1;
    }
    GroupGot::Group(acc)
}

fn read_group(t: &mut PathTokenizer, up: char) -> (g: GroupGot)
    requires
        old(t).pos() <= old(t).text().len(),
    ensures
        final(t).text() == old(t).text(),
        final(t).pos() <= final(t).text().len(),
        got_matches(g, group_at(old(t).text(), old(t).pos(), up), final(t).pos()),
{
    let ghost s = t.text();
    let ghost i = t.pos();
    proof {
        lemma_num_at(s, i);
        lemma_sep_end(s, i);
    }
    if up == 'H' || up == 'V' {
        match t.number() {
            Err(e) => GroupGot::Fail(e),
            Ok(None) => GroupGot::NoGroup,
            Ok(Some(x)) => {
                let v = vec![x];
                assert(strs_view(v@) =~= seq![v@[0]@]);
                GroupGot::Group(v)
            },
        }
    } else if up == 'C' || up == 'Q' {
        match read_point(t) {
            GroupGot::Group(a) => {
                let ghost av = strs_view(a@);
                let more: usize = if up == 'C' { 2 } else { 1 };
                match read_more_points(t, more, up) {
                    GroupGot::Group(b) => {
                        let ghost bv = strs_view(b@);
                        let mut a = a;
                        let mut b = b;
                        a.append(&mut b);
                        assert(strs_view(a@) =~= av + bv);
                        GroupGot::Group(a)
                    },
                    other => other,
                }
            },
            other => other,
        }
    } else {
        read_point(t)
    }
}

/// How reading a run of groups ended: the counterpart of `RunEnd`.
enum RunGot {
    Ended,
    Stopped,
    Failed(Error),
}

fn read_run(t: &mut PathTokenizer, up: char, rel: bool) -> (r: (Vec<PathSeg>, RunGot))
    requires
        old(t).pos() <= old(t).text().len(),
    ensures
        final(t).text() == old(t).text(),
        final(t).pos() <= final(t).text().len(),
        ({
            let rr = run_at(old(t).text(), old(t).pos(), up, rel, true);
            &&& segs_view(r.0@) == rr.0
            &&& match (r.1, rr.1) {
                (RunGot::Ended, RunEnd::Ended(e)) => final(t).pos() == e,
                (RunGot::Stopped, RunEnd::Stopped) => true,
                (RunGot::Failed(err), RunEnd::Failed(m)) => err matches Error::Parse(x) && x@ == m,
                _ => false,
            }
        }),
{
    let ghost s = t.text();
    let ghost p = t.pos();
    let mut run: Vec<PathSeg> = Vec::new();
    let mut first = true;
    assert(segs_view(run@) =~= Seq::<PathSegV>::empty());
    assert(run_at(s, p, up, rel, true).0 =~= segs_view(run@) + run_at(s, p, up, rel, true).0);
    loop
        invariant
            s == old(t).text(),
            p == old(t).pos(),
            t.text() == s,
            t.pos() <= s.len(),
            run_at(s, p, up, rel, true) == (
                segs_view(run@) + run_at(s, t.pos(), up, rel, first).0,
                run_at(s, t.pos(), up, rel, first).1,
            ),
        decreases s.len() - t.pos(),
    {
        let ghost k = t.pos();
        proof {
            lemma_group_at(s, k, up);
        }
        match read_group(t, up) {
            GroupGot::NoGroup => {
                assert(segs_view(run@) + Seq::<PathSegV>::empty() =~= segs_view(run@));
                if first && up == 'M' {
                    return (run, RunGot::Stopped);
                }
                return (run, RunGot::Ended);
            },
            GroupGot::Fail(e) => {
                assert(segs_view(run@) + Seq::<PathSegV>::empty() =~= segs_view(run@));
                return (run, RunGot::Failed(e));
            },
            GroupGot::Group(v) => {
                let ghost rv = segs_view(run@);
                let g = PathSeg { cmd: if up == 'M' && !first { 'L' } else { up }, rel, nums: v };
                let ghost gv = g@;
                run.push(g);
                proof {
                    assert(segs_view(run@) =~= rv + seq![gv]);
                    let r2 = run_at(s, t.pos() as int, up, rel, false);
                    assert(rv + (seq![gv] + r2.0) == (rv + seq![gv]) + r2.0);
                }
                first = false;
            },
        }
    }
}

/// Read SVG path data into segments, one per group of coordinates: `M`/`m` (a move, then
/// linetos for further points), `L`, `H`, `V`, `C`, `Q` (absolute, or relative in
/// lowercase) and `Z`. Numbers without a command letter before them continue the command in
/// force; numbers before any command end the data. A moveto without a point ends the data
/// there. A command that runs out of coordinates, a malformed number, an unknown command
/// letter, and numbers after a closepath are errors.
#[verifier::rlimit(50)]
#[verifier::spinoff_prover]
pub fn path_segments(d: &str) -> (r: Result<Vec<PathSeg>, Error>)
    ensures
        match (r, path_segments_spec(d@)) {
            (Ok(v), Ok(w)) => segs_view(v@) == w,
            (Err(Error::Parse(m)), Err(e)) => m@ == e,
            _ => false,
        },
{
    let mut t = PathTokenizer::new(d);
    let ghost s = d@;
    let n = t.chars.len();
    let mut segs: Vec<PathSeg> = Vec::new();
    let mut prev: char = ' ';
    assert(segs_view(segs@) =~= Seq::<PathSegV>::empty());
    assert(prepend_segs(Seq::<PathSegV>::empty(), path_segments_spec(s)) == path_segments_spec(s)) by {
        match path_segments_spec(s) {
            Ok(b) => assert(Seq::<PathSegV>::empty() + b =~= b),
            Err(_) => {},
        }
    }
    loop
        invariant
            s == d@,
            t.text() == s,
            s.len() == n,
            t.pos() <= s.len(),
            path_segments_spec(s) == prepend_segs(segs_view(segs@), segs_from(s, t.pos(), prev)),
        decreases s.len() - t.pos(),
    {
        let ghost i = t.pos();
        let ghost before = segs_view(segs@);
        proof {
            lemma_sep_end(s, i);
        }
        let c_opt = t.peek_command();
        let ghost j = t.pos();
        let c: char;
        let at_cmd: bool;
        match c_opt {
            Some(x) => {
                t.advance();
                c = x;
                at_cmd = true;
            },
            None => {
                if prev == ' ' {
                    proof {
                        assert(segs_from(s, i, prev) == Ok::<Seq<PathSegV>, Seq<char>>(Seq::empty()));
                        assert(before + Seq::<PathSegV>::empty() =~= before);
                    }
                    return Ok(segs);
                }
                c = prev;
                at_cmd = false;
            },
        }
        let ghost p = t.pos();
        let up = to_upper(c);
        let rel = 'a' <= c && c <= 'z';
        if up == 'Z' {
            if !at_cmd {
                proof {
                    reveal_strlit("path command Z takes no coordinates");
                    assert(segs_from(s, i, prev) == Err::<Seq<PathSegV>, Seq<char>>("path command Z takes no coordinates"@));
                }
                return Err(parse_error("path command Z takes no coordinates"));
            }
            let z = PathSeg { cmd: 'Z', rel, nums: Vec::new() };
            let ghost zv = seq![PathSegV { cmd: 'Z', rel, nums: Seq::empty() }];
            assert(z@.nums =~= Seq::<Seq<char>>::empty());
            segs.push(z);
            assert(segs_view(segs@) =~= before + zv);
            proof {
                lemma_sep_end(s, p);
            }
            if t.is_done() {
                return Ok(segs);
            }
            proof {
                let q = t.pos();
                match segs_from(s, q, c) {
                    Ok(b) => assert(before + (zv + b) == (before + zv) + b),
                    Err(_) => {},
                }
            }
            prev = c;
        } else if up == 'M' || up == 'L' || up == 'H' || up == 'V' || up == 'C' || up == 'Q' {
            let (mut run, end) = read_run(&mut t, up, rel);
            let stopped = match end {
                RunGot::Failed(e) => {
                    return Err(e);
                },
                RunGot::Stopped => true,
                RunGot::Ended => false,
            };
            let ghost rseg = segs_view(run@);
            segs.append(&mut run);
            assert(segs_view(segs@) =~= before + rseg);
            if stopped {
                return Ok(segs);
            }
            proof {
                lemma_segs_progress(s, i, up, rel);
                lemma_sep_end(s, t.pos() as int);
            }
            if t.is_done() {
                return Ok(segs);
            }
            proof {
                let q = t.pos();
                match segs_from(s, q, c) {
                    Ok(b) => assert(before + (rseg + b) == (before + rseg) + b),
                    Err(_) => {},
                }
            }
            prev = c;
        } else {
            let shown = debug_char(up);
            let mut m = string_from(&chars_of("unsupported path command "));
            push_chars(&mut m, chars_of(shown.as_str()).as_slice());
            return Err(Error::Parse(m));
        }
    }
}

} // verus!
