//! The bounded attribute set that is spliced into an icon's opening tag.

use vstd::prelude::*;

verus! {

/// Number of attribute slots in an [`IconAttrs`].
pub const MAX_ATTRS: usize = 16;

/// An attribute as its key and value text.
pub type AttrPair = (Seq<char>, Seq<char>);

/// What remembering one more attribute does: append it, and once all slots
/// are taken let it replace the oldest one.
pub open spec fn pushed(s: Seq<AttrPair>, p: AttrPair) -> Seq<AttrPair> {
    if s.len() < MAX_ATTRS {
        s.push(p)
    } else {
        s.drop_first().push(p)
    }
}

/// The text ` key="value"` for one attribute.
pub open spec fn attr_text(p: AttrPair) -> Seq<char> {
    " "@ + p.0 + "=\""@ + p.1 + "\""@
}

/// All attributes as text, in the order given.
pub open spec fn fragment(s: Seq<AttrPair>) -> Seq<char>
    decreases s.len(),
{
    if s.len() == 0 {
        Seq::empty()
    } else {
        fragment(s.drop_last()) + attr_text(s.last())
    }
}

/// The markup with the attribute text spliced in after its first four
/// characters (the opening-tag token); unchanged when there are no attributes.
pub open spec fn rendered(svg: Seq<char>, s: Seq<AttrPair>) -> Seq<char> {
    if s.len() == 0 {
        svg
    } else {
        svg.subrange(0, 4) + fragment(s) + svg.subrange(4, svg.len() as int)
    }
}

/// The attributes after setting each of `ps` in turn on an empty set.
pub open spec fn set_all(ps: Seq<AttrPair>) -> Seq<AttrPair>
    decreases ps.len(),
{
    if ps.len() == 0 {
        Seq::empty()
    } else {
        pushed(set_all(ps.drop_last()), ps.last())
    }
}

/// Setting attributes one after another on an empty set keeps the last
/// `MAX_ATTRS` of them in the order they were set; once more were set, the
/// earliest ones are gone.
pub proof fn lemma_set_all(ps: Seq<AttrPair>)
    ensures
        set_all(ps) == ps.subrange(
            if ps.len() > MAX_ATTRS { ps.len() - MAX_ATTRS } else { 0 },
            ps.len() as int,
        ),
    decreases ps.len(),
{
    if ps.len() > 0 {
        let init = ps.drop_last();
        lemma_set_all(init);
        if init.len() > MAX_ATTRS {
            assert(set_all(init).drop_first().push(ps.last()) =~= ps.subrange(
                ps.len() - MAX_ATTRS,
                ps.len() as int,
            ));
        } else if init.len() == MAX_ATTRS {
            assert(set_all(init).drop_first().push(ps.last()) =~= ps.subrange(
                ps.len() - MAX_ATTRS,
                ps.len() as int,
            ));
        } else {
            assert(set_all(init).push(ps.last()) =~= ps.subrange(0, ps.len() as int));
        }
    } else {
        assert(ps.subrange(0, 0) =~= Seq::<AttrPair>::empty());
    }
}

/// Rendering with no attributes leaves the markup as it is.
pub proof fn lemma_render_empty(svg: Seq<char>)
    ensures
        rendered(svg, Seq::empty()) == svg,
{
}

/// Attributes `a`, `b`, `c` set in that order on an empty set are emitted
/// in that order.
pub proof fn lemma_render_in_order(a: AttrPair, b: AttrPair, c: AttrPair)
    ensures
        set_all(seq![a, b, c]) == seq![a, b, c],
        fragment(set_all(seq![a, b, c])) == attr_text(a) + attr_text(b) + attr_text(c),
{
    let s = seq![a, b, c];
    lemma_set_all(s);
    assert(s.subrange(0, 3) =~= s);
    assert(s.drop_last() =~= seq![a, b]);
    assert(seq![a, b].drop_last() =~= seq![a]);
    assert(seq![a].drop_last() =~= Seq::<AttrPair>::empty());
    assert(fragment(Seq::<AttrPair>::empty()) == Seq::<char>::empty());
    assert(fragment(seq![a]) == fragment(Seq::<AttrPair>::empty()) + attr_text(a));
    assert(fragment(seq![a]) =~= attr_text(a));
    assert(attr_text(a) + attr_text(b) + attr_text(c) =~= fragment(seq![a, b]) + attr_text(c));
}

/// Setting one attribute more than there are slots drops the first one set;
/// the others are emitted in the order they were set.
pub proof fn lemma_overflow_drops_oldest(ps: Seq<AttrPair>)
    requires
        ps.len() == MAX_ATTRS + 1,
    ensures
        set_all(ps) == ps.drop_first(),
        fragment(set_all(ps)) == fragment(ps.subrange(1, ps.len() as int)),
{
    lemma_set_all(ps);
    assert(ps.drop_first() =~= ps.subrange(1, ps.len() as int));
}

/// A value of a structured key/value document, as far as attributes read it.
#[derive(Debug, PartialEq, Eq)]
pub enum DocValue {
    /// A string.
    Text(String),
    /// A number, as its decimal text.
    Number(String),
    /// A boolean.
    Bool(bool),
    /// Anything else (null, an array, a nested object).
    Other,
}

/// The attribute text a document value gives, if it gives one.
pub open spec fn scalar_text(v: DocValue) -> Option<Seq<char>> {
    match v {
        DocValue::Text(s) => Some(s@),
        DocValue::Number(s) => Some(s@),
        DocValue::Bool(b) => Some(if b { "true"@ } else { "false"@ }),
        DocValue::Other => None,
    }
}

/// The attributes that a document's entries give, set one after another.
pub open spec fn document_attrs(es: Seq<(String, DocValue)>) -> Seq<AttrPair>
    decreases es.len(),
{
    if es.len() == 0 {
        Seq::empty()
    } else {
        let prev = document_attrs(es.drop_last());
        match scalar_text(es.last().1) {
            Some(t) => pushed(prev, (es.last().0@, t)),
            None => prev,
        }
    }
}

/// A fixed-capacity ring of (key, value) attribute slots with a write cursor.
///
/// Each new attribute goes into the slot under the cursor, which then moves
/// on; after [`MAX_ATTRS`] attributes the oldest slot is overwritten. Setting
/// a key again does not reuse its earlier slot.
#[derive(Debug)]
pub struct IconAttrs {
    data: Vec<(String, String)>,
    pos: u8,
    len: u8,
}

impl IconAttrs {
    #[verifier::type_invariant]
    closed spec fn inv(&self) -> bool {
        &&& self.data.len() == MAX_ATTRS
        &&& self.pos < MAX_ATTRS
        &&& self.len <= MAX_ATTRS
        &&& self.len < MAX_ATTRS ==> self.pos == self.len
    }

    /// Index in `data` of the oldest populated slot.
    closed spec fn start(&self) -> int {
        if self.len < MAX_ATTRS {
            0
        } else {
            self.pos as int
        }
    }

    closed spec fn slot(&self, i: int) -> AttrPair {
        let p = self.data@[(self.start() + i) % (MAX_ATTRS as int)];
        (p.0@, p.1@)
    }

    /// The populated slots, oldest first: the order in which they are emitted.
    pub closed spec fn view(&self) -> Seq<AttrPair> {
        Seq::new(self.len as nat, |i: int| self.slot(i))
    }

    /// An empty attribute set.
    pub fn new() -> (r: Self)
        ensures
            r@ == Seq::<AttrPair>::empty(),
    {
        let mut data: Vec<(String, String)> = Vec::new();
        let mut i: usize = 0;
        while i < MAX_ATTRS
            invariant
                i <= MAX_ATTRS,
                data.len() == i,
            decreases MAX_ATTRS - i,
        {
            data.push((String::new(), String::new()));
            i = i + 1;
        }
        let r = IconAttrs { data, pos: 0, len: 0 };
        assert(r@ =~= Seq::<AttrPair>::empty());
        r
    }

    /// Sets `attr` to `value` in the slot under the cursor.
    pub fn with(self, attr: &str, value: &str) -> (r: Self)
        ensures
            r@ == pushed(self@, (attr@, value@)),
    {
        proof {
            use_type_invariant(&self);
        }
        let ghost old_self = self;
        let IconAttrs { mut data, pos, len } = self;
        data.set(pos as usize, (attr.to_owned(), value.to_owned()));
        let new_pos: u8 = if pos + 1 == MAX_ATTRS as u8 {
            0
        } else {
            pos + 1
        };
        let new_len: u8 = if len < MAX_ATTRS as u8 {
            len + 1
        } else {
            len
        };
        let r = IconAttrs { data, pos: new_pos, len: new_len };
        proof {
            let p = (attr@, value@);
            let m = MAX_ATTRS as int;
            if len < MAX_ATTRS {
                assert forall|i: int| 0 <= i < r@.len() implies r@[i] == old_self@.push(p)[i] by {
                    assert((r.start() + i) % m == i);
                    assert((old_self.start() + i) % m == i);
                }
                assert(r@ =~= pushed(old_self@, p));
            } else {
                assert forall|i: int| 0 <= i < r@.len() implies r@[i]
                    == old_self@.drop_first().push(p)[i] by {
                    if i + 1 < m {
                        assert((r.start() + i) % m == (old_self.start() + i + 1) % m);
                        assert((r.start() + i) % m != pos as int);
                    } else {
                        assert((r.start() + i) % m == pos as int);
                    }
                }
                assert(r@ =~= pushed(old_self@, p));
            }
        }
        r
    }

    /// Sets the `class` attribute.
    pub fn class(self, class: &str) -> (r: Self)
        ensures
            r@ == pushed(self@, ("class"@, class@)),
    {
        self.with("class", class)
    }

    /// Sets the `fill` attribute.
    pub fn fill(self, fill: &str) -> (r: Self)
        ensures
            r@ == pushed(self@, ("fill"@, fill@)),
    {
        self.with("fill", fill)
    }

    /// Sets the `stroke` attribute.
    pub fn stroke_color(self, stroke_color: &str) -> (r: Self)
        ensures
            r@ == pushed(self@, ("stroke"@, stroke_color@)),
    {
        self.with("stroke", stroke_color)
    }

    /// Sets the `stroke-width` attribute.
    pub fn stroke_width(self, stroke_width: &str) -> (r: Self)
        ensures
            r@ == pushed(self@, ("stroke-width"@, stroke_width@)),
    {
        self.with("stroke-width", stroke_width)
    }
}

impl IconAttrs {
    /// The attribute text ` k1="v1" k2="v2" ...` of the populated slots, oldest first.
    fn fragment_text(&self) -> (r: String)
        ensures
            r@ == fragment(self@),
    {
        proof {
            use_type_invariant(self);
        }
        let start: usize = if self.len < MAX_ATTRS as u8 {
            0
        } else {
            self.pos as usize
        };
        let n: usize = self.len as usize;
        let mut out = String::new();
        let mut i: usize = 0;
        while i < n
            invariant
                self.inv(),
                n == self.len,
                start == self.start(),
                i <= n,
                out@ == fragment(self@.subrange(0, i as int)),
            decreases n - i,
        {
            let idx: usize = (start + i) % MAX_ATTRS;
            let pair = &self.data[idx];
            out.append(" ");
            out.append(pair.0.as_str());
            out.append("=\"");
            out.append(pair.1.as_str());
            out.append("\"");
            proof {
                let prefix = self@.subrange(0, i + 1);
                assert(prefix.drop_last() =~= self@.subrange(0, i as int));
                assert(prefix.last() == self.slot(i as int));
            }
            i = i + 1;
        }
        assert(self@.subrange(0, n as int) =~= self@);
        out
    }

    /// Renders `svg` with these attributes spliced in after its opening-tag
    /// token; `None` when there is no markup.
    pub fn add_to_svg(&self, svg: Option<&String>) -> (r: Option<String>)
        requires
            self@.len() > 0 ==> (svg matches Some(s) ==> s@.len() >= 4),
        ensures
            match svg {
                None => r is None,
                Some(s) => r matches Some(t) && t@ == rendered(s@, self@),
            },
    {
        proof {
            use_type_invariant(self);
        }
        match svg {
            None => None,
            Some(s) => {
                if self.len == 0 {
                    return Some(s.clone());
                }
                let frag = self.fragment_text();
                let text = s.as_str();
                let n = text.unicode_len();
                let mut out = String::from_str(text.substring_char(0, 4));
                out.append(frag.as_str());
                out.append(text.substring_char(4, n));
                Some(out)
            },
        }
    }

    /// Builds an attribute set from the entries of a structured document, in
    /// the order given: text, numbers and booleans are taken as their text,
    /// other values are skipped.
    pub fn from_document(entries: &Vec<(String, DocValue)>) -> (r: Self)
        ensures
            r@ == document_attrs(entries@),
    {
        let mut attrs = IconAttrs::new();
        let mut i: usize = 0;
        while i < entries.len()
            invariant
                i <= entries.len(),
                attrs@ == document_attrs(entries@.subrange(0, i as int)),
            decreases entries.len() - i,
        {
            let (key, value) = &entries[i];
            proof {
                let prefix = entries@.subrange(0, i + 1);
                assert(prefix.drop_last() =~= entries@.subrange(0, i as int));
            }
            attrs = match value {
                DocValue::Text(t) => attrs.with(key.as_str(), t.as_str()),
                DocValue::Number(t) => attrs.with(key.as_str(), t.as_str()),
                DocValue::Bool(b) => {
                    if *b {
                        attrs.with(key.as_str(), "true")
                    } else {
                        attrs.with(key.as_str(), "false")
                    }
                },
                DocValue::Other => attrs,
            };
            i = i + 1;
        }
        assert(entries@.subrange(0, entries.len() as int) =~= entries@);
        attrs
    }
}

impl Default for IconAttrs {
    fn default() -> (r: Self)
        ensures
            r@ == Seq::<AttrPair>::empty(),
    {
        IconAttrs::new()
    }
}

} // verus!
