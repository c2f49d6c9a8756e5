//! Element attribute values and the name-to-value table an element keeps.
use vstd::prelude::*;
use vstd::std_specs::convert::FromSpecImpl;
use crate::text::{
    chars_of, int_text, int_to_text, lower, nat_text, same_text, string_of, to_lower, trim, trim_text,
    unsigned_to_text,
};

verus! {

/// A floating-point attribute value, held as what the attribute logic
/// reads of it: its IEEE-754 bit pattern and the text that `to_string`
/// gives for it. The renderer-side code that turns an `f64` into this
/// value fills both from the same number.
#[derive(Clone, Debug)]
pub struct FloatValue {
    pub bits: u64,
    pub text: String,
}

/// An attribute value.
#[derive(Clone, Debug)]
pub enum Attribute {
    String(String),
    Number(FloatValue),
    Integer(i64),
    Boolean(bool),
}

/// What an attribute holds, as plain values.
pub enum AttributeView {
    Text(Seq<char>),
    Number(u64, Seq<char>),
    Integer(i64),
    Boolean(bool),
}

impl View for Attribute {
    type V = AttributeView;

    open spec fn view(&self) -> AttributeView {
        match self {
            Attribute::String(s) => AttributeView::Text(s@),
            Attribute::Number(f) => AttributeView::Number(f.bits, f.text@),
            Attribute::Integer(i) => AttributeView::Integer(*i),
            Attribute::Boolean(b) => AttributeView::Boolean(*b),
        }
    }
}

pub open spec fn seq_true() -> Seq<char> {
    seq!['t', 'r', 'u', 'e']
}

pub open spec fn seq_false() -> Seq<char> {
    seq!['f', 'a', 'l', 's', 'e']
}

/// Whether a float bit pattern is something other than +0.0 or -0.0
/// (NaN counts as non-zero, as `!= 0.0` does).
pub open spec fn float_bits_nonzero(bits: u64) -> bool {
    bits & 0x7fff_ffff_ffff_ffffu64 != 0
}

/// A text counts as false when, trimmed and with ASCII letters made small,
/// it is "false", "0" or empty.
pub open spec fn text_truthy(s: Seq<char>) -> bool {
    let t = lower(trim(s));
    !(t == seq_false() || t.len() == 0 || t == seq!['0'])
}

impl AttributeView {
    /// The text `to_string` gives for the value.
    pub open spec fn text(self) -> Seq<char> {
        match self {
            AttributeView::Text(s) => s,
            AttributeView::Number(_, t) => t,
            AttributeView::Integer(i) => int_text(i as int),
            AttributeView::Boolean(b) => if b {
                seq_true()
            } else {
                seq_false()
            },
        }
    }

    /// The text by which values are ordered: as `text` but with a boolean
    /// as "1" or "0".
    pub open spec fn order_text(self) -> Seq<char> {
        match self {
            AttributeView::Boolean(b) => if b {
                seq!['1']
            } else {
                seq!['0']
            },
            _ => self.text(),
        }
    }

    pub open spec fn truthy(self) -> bool {
        match self {
            AttributeView::Text(s) => text_truthy(s),
            AttributeView::Number(bits, _) => float_bits_nonzero(bits),
            AttributeView::Integer(i) => i != 0,
            AttributeView::Boolean(b) => b,
        }
    }

    /// What `==` against an integer of value `v` gives, for values that
    /// are not floats.
    pub open spec fn equals_integer(self, v: int) -> bool {
        match self {
            AttributeView::Boolean(b) => v == (if b {
                1int
            } else {
                0int
            }),
            AttributeView::Integer(i) => i == v,
            AttributeView::Text(s) => int_text(v) == s,
            AttributeView::Number(_, _) => false,
        }
    }
}

/// `name:"value",` and a line break.
pub open spec fn field_text(name: Seq<char>, value: Seq<char>) -> Seq<char> {
    name + seq![':', '"'] + value + seq!['"', ',', '\n']
}

/// The text `format` gives for an attribute under `name`.
pub open spec fn formatted(name: Seq<char>, a: AttributeView) -> Seq<char> {
    match a {
        AttributeView::Boolean(b) => if b {
            name
        } else {
            Seq::empty()
        },
        _ => field_text(name, a.text()),
    }
}

/// Lexicographic order of character sequences: -1, 0 or 1 as `a` sorts
/// before, equal to or after `b`.
pub open spec fn text_order(a: Seq<char>, b: Seq<char>) -> int
    decreases a.len(),
{
    if a.len() == 0 && b.len() == 0 {
        0
    } else if a.len() == 0 {
        -1
    } else if b.len() == 0 {
        1
    } else if a[0] < b[0] {
        -1
    } else if a[0] > b[0] {
        1
    } else {
        text_order(a.drop_first(), b.drop_first())
    }
}

fn push_str(out: &mut String, s: &str)
    ensures
        final(out)@ == old(out)@ + s@,
{
    out.append(s);
}

/// `name:"value",` followed by a line break.
pub fn fmt_helper(name: &str, value: &str) -> (r: String)
    ensures
        r@ == field_text(name@, value@),
{
    let mut output = String::new();
    push_str(&mut output, name);
    let sep = ":\"";
    let end = "\",\n";
    proof {
        reveal_strlit(":\"");
        reveal_strlit("\",\n");
    }
    push_str(&mut output, sep);
    push_str(&mut output, value);
    push_str(&mut output, end);
    assert(output@ =~= field_text(name@, value@));
    output
}

fn literal_true() -> (r: String)
    ensures
        r@ == seq_true(),
{
    proof {
        reveal_strlit("true");
    }
    String::from_str("true")
}

fn literal_false() -> (r: String)
    ensures
        r@ == seq_false(),
{
    proof {
        reveal_strlit("false");
    }
    String::from_str("false")
}

fn literal_one_char(c: char) -> (r: String)
    ensures
        r@ == seq![c],
{
    let v: Vec<char> = vec![c];
    string_of(v.as_slice())
}

impl Attribute {
    /// A copy of the value.
    pub fn duplicate(&self) -> (r: Attribute)
        ensures
            r@ == self@,
    {
        match self {
            Attribute::String(s) => Attribute::String(s.clone()),
            Attribute::Number(f) => Attribute::Number(FloatValue { bits: f.bits, text: f.text.clone() }),
            Attribute::Integer(i) => Attribute::Integer(*i),
            Attribute::Boolean(b) => Attribute::Boolean(*b),
        }
    }

    pub fn to_string(&self) -> (r: String)
        ensures
            r@ == self@.text(),
    {
        match self {
            Attribute::String(s) => s.clone(),
            Attribute::Number(f) => f.text.clone(),
            Attribute::Integer(i) => int_to_text(*i),
            Attribute::Boolean(b) => if *b {
                literal_true()
            } else {
                literal_false()
            },
        }
    }

    fn order_string(&self) -> (r: String)
        ensures
            r@ == self@.order_text(),
    {
        match self {
            Attribute::Boolean(b) => if *b {
                literal_one_char('1')
            } else {
                literal_one_char('0')
            },
            _ => self.to_string(),
        }
    }

    pub fn is_truthy(&self) -> (r: bool)
        ensures
            r == self@.truthy(),
    {
        match self {
            Attribute::String(s) => {
                let t = trim_text(s.as_str());
                let l = to_lower(t.as_str());
                let cs = chars_of(l.as_str());
                let is_false = cs.len() == 5 && cs[0] == 'f' && cs[1] == 'a' && cs[2] == 'l'
                    && cs[3] == 's' && cs[4] == 'e';
                let is_zero = cs.len() == 1 && cs[0] == '0';
                proof {
                    if cs@.len() == 5 && cs@ == seq_false() {
                        assert(cs@[4] == 'e');
                    }
                    if is_false {
                        assert(cs@ =~= seq_false());
                    }
                    if is_zero {
                        assert(cs@ =~= seq!['0']);
                    }
                }
                !(is_false || cs.len() == 0 || is_zero)
            },
            Attribute::Number(f) => f.bits & 0x7fff_ffff_ffff_ffffu64 != 0,
            Attribute::Integer(i) => *i != 0,
            Attribute::Boolean(b) => *b,
        }
    }

    /// Resets the value to the empty or zero value of its kind.
    pub fn clear(&mut self)
        ensures
            final(self)@ == (match old(self)@ {
                AttributeView::Text(_) => AttributeView::Text(Seq::empty()),
                AttributeView::Number(_, _) => AttributeView::Number(0, seq!['0']),
                AttributeView::Integer(_) => AttributeView::Integer(0),
                AttributeView::Boolean(_) => AttributeView::Boolean(false),
            }),
    {
        match self {
            Attribute::String(s) => {
                *s = String::new();
            },
            Attribute::Number(f) => {
                f.bits = 0;
                f.text = literal_one_char('0');
            },
            Attribute::Integer(i) => {
                *i = 0;
            },
            Attribute::Boolean(b) => {
                *b = false;
            },
        }
    }

    /// The attribute written as a field: the bare name for `true`, nothing
    /// for `false`, otherwise `name:"value",` and a line break.
    pub fn format(&self, name: &str) -> (r: String)
        ensures
            r@ == formatted(name@, self@),
    {
        match self {
            Attribute::Boolean(b) => if *b {
                String::from_str(name)
            } else {
                String::new()
            },
            Attribute::Integer(i) => {
                let t = int_to_text(*i);
                fmt_helper(name, t.as_str())
            },
            Attribute::Number(f) => fmt_helper(name, f.text.as_str()),
            Attribute::String(s) => fmt_helper(name, s.as_str()),
        }
    }

    /// `==` against a boolean: whether the value is truthy exactly when `b` is true.
    pub fn eq_bool(&self, b: bool) -> (r: bool)
        ensures
            r == (self@.truthy() == b),
    {
        self.is_truthy() == b
    }

    /// `==` against a text: whether `to_string` gives that text.
    pub fn eq_text(&self, other: &str) -> (r: bool)
        ensures
            r == (self@.text() == other@),
    {
        let t = self.to_string();
        same_text(t.as_str(), other)
    }

    /// `==` against a character: whether `to_string` gives a text of one
    /// byte that is that character.
    pub fn eq_char(&self, c: char) -> (r: bool)
        ensures
            r == (self@.text() == seq![c] && (c as u32) < 128),
    {
        let t = self.to_string();
        let cs = chars_of(t.as_str());
        if cs.len() == 1 && (cs[0] as u32) < 128 {
            proof {
                if cs@[0] == c {
                    assert(cs@ =~= seq![c]);
                }
            }
            cs[0] == c
        } else {
            proof {
                if t@ == seq![c] {
                    assert(cs@[0] == c);
                }
            }
            false
        }
    }

    /// `==` against a signed integer (any width up to 64 bits, widened);
    /// for a float value the comparison is a floating-point one and is
    /// made by the caller.
    pub fn eq_integer(&self, v: i64) -> (r: bool)
        requires
            !(self@ is Number),
        ensures
            r == self@.equals_integer(v as int),
    {
        match self {
            Attribute::Boolean(b) => v == (if *b {
                1i64
            } else {
                0i64
            }),
            Attribute::Integer(i) => *i == v,
            Attribute::String(s) => {
                let t = int_to_text(v);
                same_text(t.as_str(), s.as_str())
            },
            Attribute::Number(_) => false,
        }
    }

    /// `==` against an unsigned integer (any width up to 64 bits): a
    /// boolean compares as 0 or 1, an integer against the value cast to
    /// `i64`, a text against the decimal text of the value.
    pub fn eq_unsigned(&self, v: u64) -> (r: bool)
        requires
            !(self@ is Number),
        ensures
            r == (match self@ {
                AttributeView::Boolean(b) => v == (if b {
                    1u64
                } else {
                    0u64
                }),
                AttributeView::Integer(i) => i as int == (v as i64) as int,
                AttributeView::Text(s) => nat_text(v as nat) == s,
                AttributeView::Number(_, _) => false,
            }),
    {
        match self {
            Attribute::Boolean(b) => v == (if *b {
                1u64
            } else {
                0u64
            }),
            Attribute::Integer(i) => *i == v as i64,
            Attribute::String(s) => {
                let t = unsigned_to_text(v);
                same_text(t.as_str(), s.as_str())
            },
            Attribute::Number(_) => false,
        }
    }

    /// `==` between two attributes, which compares `self` against the
    /// plain value that `other` holds; float comparisons are made by the
    /// caller.
    pub fn eq_attribute(&self, other: &Attribute) -> (r: bool)
        requires
            !(other@ is Number),
            other@ is Integer ==> !(self@ is Number),
        ensures
            r == (match other@ {
                AttributeView::Boolean(b) => self@.truthy() == b,
                AttributeView::Integer(i) => self@.equals_integer(i as int),
                AttributeView::Text(s) => self@.text() == s,
                AttributeView::Number(_, _) => false,
            }),
    {
        match other {
            Attribute::Boolean(b) => self.eq_bool(*b),
            Attribute::Integer(i) => self.eq_integer(*i),
            Attribute::String(s) => self.eq_text(s.as_str()),
            Attribute::Number(_) => false,
        }
    }

    /// The order of two attributes: that of their ordering texts.
    pub fn order(&self, other: &Attribute) -> (r: i8)
        ensures
            r as int == text_order(self@.order_text(), other@.order_text()),
    {
        let a = self.order_string();
        let b = other.order_string();
        let x = chars_of(a.as_str());
        let y = chars_of(b.as_str());
        order_chars(&x, &y)
    }
}

proof fn lemma_text_order_skip(a: Seq<char>, b: Seq<char>, i: int)
    requires
        0 <= i <= a.len(),
        i <= b.len(),
        a.take(i) == b.take(i),
    ensures
        text_order(a, b) == text_order(a.skip(i), b.skip(i)),
    decreases i,
{
    if i == 0 {
        assert(a.skip(0) =~= a);
        assert(b.skip(0) =~= b);
    } else {
        assert(a[0] == a.take(i)[0]);
        assert(b[0] == b.take(i)[0]);
        assert(a.drop_first().take(i - 1) =~= a.take(i).drop_first());
        assert(b.drop_first().take(i - 1) =~= b.take(i).drop_first());
        lemma_text_order_skip(a.drop_first(), b.drop_first(), i - 1);
        assert(a.drop_first().skip(i - 1) =~= a.skip(i));
        assert(b.drop_first().skip(i - 1) =~= b.skip(i));
    }
}

fn order_chars(x: &Vec<char>, y: &Vec<char>) -> (r: i8)
    ensures
        r as int == text_order(x@, y@),
{
    let mut i: usize = 0;
    while i < x.len() && i < y.len() && x[i] == y[i]
        invariant
            i <= x@.len(),
            i <= y@.len(),
            x@.take(i as int) == y@.take(i as int),
        decreases x.len() - i,
    {
        assert(x@.take(i + 1) == x@.take(i as int).push(x@[i as int]));
        assert(y@.take(i + 1) == y@.take(i as int).push(y@[i as int]));
        i = i + 1;
    }
    proof {
        lemma_text_order_skip(x@, y@, i as int);
    }
    let ghost xs = x@.skip(i as int);
    let ghost ys = y@.skip(i as int);
    assert(xs.len() == x@.len() - i);
    assert(ys.len() == y@.len() - i);
    if i == x.len() && i == y.len() {
        0
    } else if i == x.len() {
        -1
    } else if i == y.len() {
        1
    } else {
        assert(x@.skip(i as int)[0] == x@[i as int]);
        assert(y@.skip(i as int)[0] == y@[i as int]);
        if x[i] < y[i] {
            -1
        } else {
            1
        }
    }
}

impl From<bool> for Attribute {
    fn from(value: bool) -> (r: Self) {
        Attribute::Boolean(value)
    }
}

impl FromSpecImpl<bool> for Attribute {
    open spec fn obeys_from_spec() -> bool {
        true
    }

    open spec fn from_spec(value: bool) -> Attribute {
        Attribute::Boolean(value)
    }
}

impl From<i64> for Attribute {
    fn from(value: i64) -> (r: Self) {
        Attribute::Integer(value)
    }
}

impl FromSpecImpl<i64> for Attribute {
    open spec fn obeys_from_spec() -> bool {
        true
    }

    open spec fn from_spec(value: i64) -> Attribute {
        Attribute::Integer(value)
    }
}

impl From<i32> for Attribute {
    fn from(value: i32) -> (r: Self) {
        Attribute::Integer(value as i64)
    }
}

impl FromSpecImpl<i32> for Attribute {
    open spec fn obeys_from_spec() -> bool {
        true
    }

    open spec fn from_spec(value: i32) -> Attribute {
        Attribute::Integer(value as i64)
    }
}

impl From<u32> for Attribute {
    fn from(value: u32) -> (r: Self) {
        Attribute::Integer(value as i64)
    }
}

impl FromSpecImpl<u32> for Attribute {
    open spec fn obeys_from_spec() -> bool {
        true
    }

    open spec fn from_spec(value: u32) -> Attribute {
        Attribute::Integer(value as i64)
    }
}

impl From<u64> for Attribute {
    fn from(value: u64) -> (r: Self) {
        Attribute::Integer(value as i64)
    }
}

impl FromSpecImpl<u64> for Attribute {
    open spec fn obeys_from_spec() -> bool {
        true
    }

    open spec fn from_spec(value: u64) -> Attribute {
        Attribute::Integer(value as i64)
    }
}

impl From<String> for Attribute {
    fn from(value: String) -> (r: Self) {
        Attribute::String(value)
    }
}

impl FromSpecImpl<String> for Attribute {
    open spec fn obeys_from_spec() -> bool {
        true
    }

    open spec fn from_spec(value: String) -> Attribute {
        Attribute::String(value)
    }
}

impl Attribute {
    /// A text attribute holding a copy of `value`.
    pub fn from_text(value: &str) -> (r: Self)
        ensures
            r@ == AttributeView::Text(value@),
    {
        Attribute::String(String::from_str(value))
    }

    /// A text attribute holding the one character `value`.
    pub fn from_char(value: char) -> (r: Self)
        ensures
            r@ == AttributeView::Text(seq![value]),
    {
        Attribute::String(literal_one_char(value))
    }
}

/// The attribute table of an element: names mapped to values, each name
/// at most once.
#[derive(Clone, Debug)]
pub struct AttributeMap {
    entries: Vec<(String, Attribute)>,
}

impl AttributeMap {
    pub closed spec fn names_distinct(self) -> bool {
        forall|i: int, j: int|
            0 <= i < j < self.entries@.len() ==> #[trigger] self.entries@[i].0@
                != #[trigger] self.entries@[j].0@
    }

    /// The names in the table, in its own order.
    pub closed spec fn name_seq(self) -> Seq<Seq<char>> {
        self.entries@.map_values(|e: (String, Attribute)| e.0@)
    }

    pub closed spec fn index_of(self, name: Seq<char>) -> int {
        choose|i: int| 0 <= i < self.entries@.len() && self.entries@[i].0@ == name
    }

    pub closed spec fn wf(self) -> bool {
        self.names_distinct()
    }
}

impl View for AttributeMap {
    type V = Map<Seq<char>, AttributeView>;

    closed spec fn view(&self) -> Map<Seq<char>, AttributeView> {
        Map::new(
            |n: Seq<char>| exists|i: int| 0 <= i < self.entries@.len() && self.entries@[i].0@ == n,
            |n: Seq<char>| self.entries@[self.index_of(n)].1@,
        )
    }
}

impl AttributeMap {
    proof fn lemma_view_at(self, i: int)
        requires
            self.wf(),
            0 <= i < self.entries@.len(),
        ensures
            self@.contains_key(self.entries@[i].0@),
            self@[self.entries@[i].0@] == self.entries@[i].1@,
            self.index_of(self.entries@[i].0@) == i,
    {
        let n = self.entries@[i].0@;
        assert(exists|k: int| 0 <= k < self.entries@.len() && self.entries@[k].0@ == n);
        let k = self.index_of(n);
        if k != i {
            if k < i {
                assert(self.entries@[k].0@ != self.entries@[i].0@);
            } else {
                assert(self.entries@[i].0@ != self.entries@[k].0@);
            }
        }
    }

    pub fn new() -> (m: Self)
        ensures
            m.wf(),
            m@ == Map::<Seq<char>, AttributeView>::empty(),
    {
        let m = AttributeMap { entries: Vec::new() };
        assert(m@ =~= Map::<Seq<char>, AttributeView>::empty());
        m
    }

    /// An empty table; the capacity is only a hint.
    pub fn with_capacity(size: usize) -> (m: Self)
        ensures
            m.wf(),
            m@ == Map::<Seq<char>, AttributeView>::empty(),
    {
        AttributeMap::new()
    }

    /// The position of the entry named `name`, if there is one.
    fn find(&self, name: &str) -> (r: Option<usize>)
        requires
            self.wf(),
        ensures
            match r {
                Some(i) => i < self.entries@.len() && self.entries@[i as int].0@ == name@,
                None => !self@.contains_key(name@),
            },
    {
        let mut i: usize = 0;
        while i < self.entries.len()
            invariant
                i <= self.entries@.len(),
                forall|k: int| 0 <= k < i ==> self.entries@[k].0@ != name@,
            decreases self.entries.len() - i,
        {
            if same_text(self.entries[i].0.as_str(), name) {
                return Some(i);
            }
            i = i + 1;
        }
        None
    }

    pub fn get_attribute(&self, name: &str) -> (r: Option<&Attribute>)
        requires
            self.wf(),
        ensures
            match r {
                Some(a) => self@.contains_key(name@) && a@ == self@[name@],
                None => !self@.contains_key(name@),
            },
    {
        match self.find(name) {
            Some(i) => {
                proof {
                    self.lemma_view_at(i as int);
                }
                Some(&self.entries[i].1)
            },
            None => None,
        }
    }

    pub fn has_attribute(&self, name: &str) -> (r: bool)
        requires
            self.wf(),
        ensures
            r == self@.contains_key(name@),
    {
        self.get_attribute(name).is_some()
    }

    pub fn set_attribute(&mut self, name: &str, value: Attribute)
        requires
            old(self).wf(),
        ensures
            final(self).wf(),
            final(self)@ == old(self)@.insert(name@, value@),
    {
        let ghost pre = *self;
        let ghost v = value@;
        match self.find(name) {
            Some(i) => {
                let key = String::from_str(name);
                self.entries.set(i, (key, value));
                proof {
                    assert forall|a: int, b: int|
                        0 <= a < b < self.entries@.len() implies #[trigger] self.entries@[a].0@
                        != #[trigger] self.entries@[b].0@ by {
                        assert(pre.entries@[a].0@ == self.entries@[a].0@);
                        assert(pre.entries@[b].0@ == self.entries@[b].0@);
                    }
                    self.lemma_view_at(i as int);
                    assert forall|n: Seq<char>| #[trigger]
                        self@.contains_key(n) <==> pre@.insert(name@, v).contains_key(n) by {
                        if pre@.contains_key(n) {
                            let k = choose|k: int|
                                0 <= k < pre.entries@.len() && pre.entries@[k].0@ == n;
                            assert(self.entries@[k].0@ == n || k == i);
                        }
                        if self@.contains_key(n) {
                            let k = choose|k: int|
                                0 <= k < self.entries@.len() && self.entries@[k].0@ == n;
                            assert(pre.entries@[k].0@ == n || k == i);
                        }
                    }
                    assert forall|n: Seq<char>| #[trigger]
                        self@.contains_key(n) implies self@[n] == pre@.insert(name@, v)[n] by {
                        let k = choose|k: int|
                            0 <= k < self.entries@.len() && self.entries@[k].0@ == n;
                        self.lemma_view_at(k);
                        if k != i {
                            pre.lemma_view_at(k);
                        }
                    }
                    assert(self@ =~= pre@.insert(name@, v));
                }
            },
            None => {
                let key = String::from_str(name);
                self.entries.push((key, value));
                proof {
                    let last = self.entries@.len() - 1;
                    assert forall|a: int, b: int|
                        0 <= a < b < self.entries@.len() implies #[trigger] self.entries@[a].0@
                        != #[trigger] self.entries@[b].0@ by {
                        if b == last {
                            if pre.entries@[a].0@ == name@ {
                                pre.lemma_view_at(a);
                            }
                        } else {
                            assert(pre.entries@[a] == self.entries@[a]);
                            assert(pre.entries@[b] == self.entries@[b]);
                        }
                    }
                    self.lemma_view_at(last);
                    assert forall|n: Seq<char>| #[trigger]
                        self@.contains_key(n) <==> pre@.insert(name@, v).contains_key(n) by {
                        if pre@.contains_key(n) {
                            let k = choose|k: int|
                                0 <= k < pre.entries@.len() && pre.entries@[k].0@ == n;
                            assert(self.entries@[k] == pre.entries@[k]);
                        }
                        if self@.contains_key(n) {
                            let k = choose|k: int|
                                0 <= k < self.entries@.len() && self.entries@[k].0@ == n;
                            if k < last {
                                assert(self.entries@[k] == pre.entries@[k]);
                            }
                        }
                    }
                    assert forall|n: Seq<char>| #[trigger]
                        self@.contains_key(n) implies self@[n] == pre@.insert(name@, v)[n] by {
                        let k = choose|k: int|
                            0 <= k < self.entries@.len() && self.entries@[k].0@ == n;
                        self.lemma_view_at(k);
                        if k < last {
                            assert(self.entries@[k] == pre.entries@[k]);
                            pre.lemma_view_at(k);
                        }
                    }
                    assert(self@ =~= pre@.insert(name@, v));
                }
            },
        }
    }

    /// Removes the entry named `name`, if there is one.
    pub fn remove_attribute(&mut self, name: &str)
        requires
            old(self).wf(),
        ensures
            final(self).wf(),
            final(self)@ == old(self)@.remove(name@),
    {
        let ghost pre = *self;
        match self.find(name) {
            Some(i) => {
                self.entries.remove(i);
                proof {
                    assert forall|a: int, b: int|
                        0 <= a < b < self.entries@.len() implies #[trigger] self.entries@[a].0@
                        != #[trigger] self.entries@[b].0@ by {
                        let pa = if a < i {
                            a
                        } else {
                            a + 1
                        };
                        let pb = if b < i {
                            b
                        } else {
                            b + 1
                        };
                        assert(self.entries@[a] == pre.entries@[pa]);
                        assert(self.entries@[b] == pre.entries@[pb]);
                    }
                    assert forall|n: Seq<char>| #[trigger]
                        self@.contains_key(n) <==> pre@.remove(name@).contains_key(n) by {
                        if self@.contains_key(n) {
                            let k = choose|k: int|
                                0 <= k < self.entries@.len() && self.entries@[k].0@ == n;
                            let pk = if k < i {
                                k
                            } else {
                                k + 1
                            };
                            assert(self.entries@[k] == pre.entries@[pk]);
                            if n == name@ {
                                if pk < i {
                                    assert(pre.entries@[pk].0@ != pre.entries@[i as int].0@);
                                } else {
                                    assert(pre.entries@[i as int].0@ != pre.entries@[pk].0@);
                                }
                            }
                        }
                        if pre@.remove(name@).contains_key(n) {
                            let k = choose|k: int|
                                0 <= k < pre.entries@.len() && pre.entries@[k].0@ == n;
                            assert(k != i);
                            let sk = if k < i {
                                k
                            } else {
                                k - 1
                            };
                            assert(self.entries@[sk] == pre.entries@[k]);
                        }
                    }
                    assert forall|n: Seq<char>| #[trigger]
                        self@.contains_key(n) implies self@[n] == pre@.remove(name@)[n] by {
                        let k = choose|k: int|
                            0 <= k < self.entries@.len() && self.entries@[k].0@ == n;
                        self.lemma_view_at(k);
                        let pk = if k < i {
                            k
                        } else {
                            k + 1
                        };
                        assert(self.entries@[k] == pre.entries@[pk]);
                        pre.lemma_view_at(pk);
                    }
                    assert(self@ =~= pre@.remove(name@));
                }
            },
            None => {
                assert(self@ =~= pre@.remove(name@));
            },
        }
    }

    /// Sets `name` to `true` or removes it: to `force` when given, else to
    /// the opposite of whether its current value is truthy (`true` when it
    /// is missing).
    pub fn toggle_attribute(&mut self, name: &str, force: Option<bool>)
        requires
            old(self).wf(),
        ensures
            final(self).wf(),
            final(self)@ == toggled(old(self)@, name@, force),
    {
        let value = match force {
            Some(f) => f,
            None => match self.get_attribute(name) {
                Some(a) => !a.is_truthy(),
                None => true,
            },
        };
        if value {
            self.set_attribute(name, Attribute::Boolean(true));
        } else {
            self.remove_attribute(name);
        }
    }

    /// The entries, each name once; the order is the table's own.
    pub fn iter(&self) -> (r: Vec<(String, Attribute)>)
        requires
            self.wf(),
        ensures
            r@.len() == self@.dom().len(),
            forall|i: int|
                0 <= i < r@.len() ==> self@.contains_key(#[trigger] r@[i].0@) && self@[r@[i].0@]
                    == r@[i].1@,
            forall|i: int, j: int|
                0 <= i < j < r@.len() ==> #[trigger] r@[i].0@ != #[trigger] r@[j].0@,
            forall|n: Seq<char>|
                #[trigger] self@.contains_key(n) ==> exists|i: int| 0 <= i < r@.len() && r@[i].0@
                    == n,
    {
        let mut out: Vec<(String, Attribute)> = Vec::new();
        let mut i: usize = 0;
        while i < self.entries.len()
            invariant
                self.wf(),
                i <= self.entries@.len(),
                out@.len() == i,
                forall|k: int|
                    0 <= k < i ==> (#[trigger] out@[k]).0@ == self.entries@[k].0@ && out@[k].1@
                        == self.entries@[k].1@,
            decreases self.entries.len() - i,
        {
            let e = &self.entries[i];
            let name = e.0.clone();
            let value = e.1.duplicate();
            out.push((name, value));
            assert(out@[i as int].0@ == self.entries@[i as int].0@);
            assert(out@[i as int].1@ == self.entries@[i as int].1@);
            i = i + 1;
        }
        proof {
            self.lemma_dom_len();
            assert forall|k: int| 0 <= k < out@.len() implies self@.contains_key(
                #[trigger] out@[k].0@,
            ) && self@[out@[k].0@] == out@[k].1@ by {
                self.lemma_view_at(k);
            }
            assert forall|n: Seq<char>| #[trigger]
                self@.contains_key(n) implies exists|k: int| 0 <= k < out@.len() && out@[k].0@
                == n by {
                let k = choose|k: int| 0 <= k < self.entries@.len() && self.entries@[k].0@ == n;
                assert(out@[k].0@ == n);
            }
        }
        out
    }

    proof fn lemma_dom_len(self)
        requires
            self.wf(),
        ensures
            self@.dom().len() == self.entries@.len(),
            self@.dom().finite(),
    {
        let names = self.name_seq();
        assert forall|i: int, j: int| 0 <= i < j < names.len() implies names[i] != names[j] by {
            assert(names[i] == self.entries@[i].0@);
            assert(names[j] == self.entries@[j].0@);
        }
        assert(names.no_duplicates());
        names.unique_seq_to_set();
        assert(self@.dom() =~= names.to_set()) by {
            assert forall|n: Seq<char>| #[trigger] self@.dom().contains(n) implies names.contains(
                n,
            ) by {
                let k = choose|k: int| 0 <= k < self.entries@.len() && self.entries@[k].0@ == n;
                assert(names[k] == n);
            }
            assert forall|n: Seq<char>| #[trigger] names.contains(n) implies self@.dom().contains(
                n,
            ) by {
                let k = choose|k: int| 0 <= k < names.len() && names[k] == n;
                assert(self.entries@[k].0@ == n);
            }
        }
    }

    /// The names, each once.
    pub fn names(&self) -> (r: Vec<String>)
        requires
            self.wf(),
        ensures
            r@.len() == self@.dom().len(),
            forall|i: int| 0 <= i < r@.len() ==> self@.contains_key(#[trigger] r@[i]@),
            forall|i: int, j: int| 0 <= i < j < r@.len() ==> #[trigger] r@[i]@ != #[trigger] r@[j]@,
            forall|n: Seq<char>|
                #[trigger] self@.contains_key(n) ==> exists|i: int| 0 <= i < r@.len() && r@[i]@ == n,
    {
        let es = self.iter();
        let mut out: Vec<String> = Vec::new();
        let mut i: usize = 0;
        while i < es.len()
            invariant
                i <= es@.len(),
                out@.len() == i,
                forall|k: int| 0 <= k < i ==> #[trigger] out@[k]@ == es@[k].0@,
            decreases es.len() - i,
        {
            out.push(es[i].0.clone());
            i = i + 1;
        }
        proof {
            assert forall|n: Seq<char>| #[trigger]
                self@.contains_key(n) implies exists|k: int| 0 <= k < out@.len() && out@[k]@ == n by {
                let k = choose|k: int| 0 <= k < es@.len() && es@[k].0@ == n;
                assert(out@[k]@ == n);
            }
        }
        out
    }

    /// The values, one per name, in the order `names` gives the names.
    pub fn values(&self) -> (r: Vec<Attribute>)
        requires
            self.wf(),
        ensures
            r@.len() == self@.dom().len(),
            forall|i: int| 0 <= i < r@.len() ==> holds_value(self@, #[trigger] r@[i]@),
    {
        let es = self.iter();
        let mut out: Vec<Attribute> = Vec::new();
        let mut i: usize = 0;
        while i < es.len()
            invariant
                i <= es@.len(),
                out@.len() == i,
                forall|k: int| 0 <= k < i ==> #[trigger] out@[k]@ == es@[k].1@,
            decreases es.len() - i,
        {
            out.push(es[i].1.duplicate());
            i = i + 1;
        }
        proof {
            assert forall|k: int| 0 <= k < out@.len() implies holds_value(self@, #[trigger] out@[k]@) by {
                assert(self@.contains_key(es@[k].0@) && self@[es@[k].0@] == out@[k]@);
            }
        }
        out
    }

    /// A table built from name and value pairs; a later pair for a name
    /// replaces an earlier one.
    pub fn from_pairs(pairs: Vec<(String, Attribute)>) -> (m: Self)
        ensures
            m.wf(),
            m@ == pairs_map(pairs@.map_values(|p: (String, Attribute)| (p.0@, p.1@))),
    {
        let ghost views = pairs@.map_values(|p: (String, Attribute)| (p.0@, p.1@));
        let mut m = AttributeMap::new();
        let mut i: usize = 0;
        while i < pairs.len()
            invariant
                i <= pairs@.len(),
                views == pairs@.map_values(|p: (String, Attribute)| (p.0@, p.1@)),
                m.wf(),
                m@ == pairs_map(views.take(i as int)),
            decreases pairs.len() - i,
        {
            assert(views.take(i + 1).drop_last() =~= views.take(i as int));
            let p = &pairs[i];
            m.set_attribute(p.0.as_str(), p.1.duplicate());
            i = i + 1;
        }
        assert(views.take(pairs@.len() as int) =~= views);
        m
    }
}

/// Whether some name maps to `v`.
/// Comparing two attributes the other way round gives the opposite order.
pub proof fn law_order_antisymmetric(a: AttributeView, b: AttributeView)
    ensures
        text_order(a.order_text(), b.order_text()) == -text_order(b.order_text(), a.order_text()),
{
    lemma_text_order_flip(a.order_text(), b.order_text());
}

/// Two attributes compare equal exactly when their ordering texts are the
/// same.
pub proof fn law_order_equal(a: AttributeView, b: AttributeView)
    ensures
        (text_order(a.order_text(), b.order_text()) == 0) == (a.order_text() == b.order_text()),
{
    lemma_text_order_zero(a.order_text(), b.order_text());
}

/// The order of attributes is transitive.
pub proof fn law_order_transitive(a: AttributeView, b: AttributeView, c: AttributeView)
    requires
        text_order(a.order_text(), b.order_text()) < 0,
        text_order(b.order_text(), c.order_text()) < 0,
    ensures
        text_order(a.order_text(), c.order_text()) < 0,
{
    lemma_text_order_trans(a.order_text(), b.order_text(), c.order_text());
}

proof fn lemma_text_order_flip(a: Seq<char>, b: Seq<char>)
    ensures
        text_order(a, b) == -text_order(b, a),
    decreases a.len(),
{
    if a.len() > 0 && b.len() > 0 && a[0] == b[0] {
        lemma_text_order_flip(a.drop_first(), b.drop_first());
    }
}

proof fn lemma_text_order_zero(a: Seq<char>, b: Seq<char>)
    ensures
        (text_order(a, b) == 0) == (a == b),
    decreases a.len(),
{
    if a.len() > 0 && b.len() > 0 {
        if a[0] == b[0] {
            lemma_text_order_zero(a.drop_first(), b.drop_first());
            if a.drop_first() == b.drop_first() {
                assert(a =~= seq![a[0]] + a.drop_first());
                assert(b =~= seq![b[0]] + b.drop_first());
            }
            if a == b {
                assert(a.drop_first() =~= b.drop_first());
            }
        } else {
            assert(a != b);
        }
    } else if a.len() == 0 && b.len() == 0 {
        assert(a =~= b);
    }
}

proof fn lemma_text_order_trans(a: Seq<char>, b: Seq<char>, c: Seq<char>)
    requires
        text_order(a, b) < 0,
        text_order(b, c) < 0,
    ensures
        text_order(a, c) < 0,
    decreases a.len(),
{
    if a.len() > 0 && b.len() > 0 && c.len() > 0 && a[0] == b[0] && b[0] == c[0] {
        lemma_text_order_trans(a.drop_first(), b.drop_first(), c.drop_first());
    }
}

/// The table after toggling `name`: the attribute is set to `true` when
/// `force` says so, or, without `force`, when it is missing or not truthy;
/// otherwise it is removed.
pub open spec fn toggled(
    m: Map<Seq<char>, AttributeView>,
    name: Seq<char>,
    force: Option<bool>,
) -> Map<Seq<char>, AttributeView> {
    let value = match force {
        Some(f) => f,
        None => if m.contains_key(name) {
            !m[name].truthy()
        } else {
            true
        },
    };
    if value {
        m.insert(name, AttributeView::Boolean(true))
    } else {
        m.remove(name)
    }
}

/// Toggling a missing attribute twice without forcing it leaves the table
/// as it was.
pub proof fn law_toggle_twice(m: Map<Seq<char>, AttributeView>, name: Seq<char>)
    requires
        !m.contains_key(name),
    ensures
        toggled(toggled(m, name, None), name, None) == m,
{
    let once = toggled(m, name, None);
    assert(once == m.insert(name, AttributeView::Boolean(true)));
    assert(once[name].truthy());
    assert(toggled(once, name, None) =~= m);
}

/// A forced toggle leaves the attribute present exactly when forced on,
/// and then as `true`.
pub proof fn law_toggle_forced(m: Map<Seq<char>, AttributeView>, name: Seq<char>, force: bool)
    ensures
        toggled(m, name, Some(force)).contains_key(name) == force,
        force ==> toggled(m, name, Some(force))[name] == AttributeView::Boolean(true),
{
}

pub open spec fn holds_value(m: Map<Seq<char>, AttributeView>, v: AttributeView) -> bool {
    exists|n: Seq<char>| m.contains_key(n) && m[n] == v
}

/// The table that inserting the pairs one after another gives.
pub open spec fn pairs_map(pairs: Seq<(Seq<char>, AttributeView)>) -> Map<Seq<char>, AttributeView>
    decreases pairs.len(),
{
    if pairs.len() == 0 {
        Map::empty()
    } else {
        pairs_map(pairs.drop_last()).insert(pairs.last().0, pairs.last().1)
    }
}

} // verus!
