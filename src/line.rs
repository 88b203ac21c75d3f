//! The `line` element.
use vstd::prelude::*;

use crate::element::{
    lacks_open_bracket, lemma_self_closing_markup, markup, Attribute, CoreAttributes, Element,
    StylingAttributes, TagAndAttributes, TagName, TagView,
};
use crate::unit::LengthOrPercentage;

verus! {

/// A line, always written as one self-closing tag.
pub struct Line {
    inner: TagAndAttributes,
}

impl Line {
    /// A line at `x`, `y`.
    pub fn new(x: LengthOrPercentage, y: LengthOrPercentage) -> (r: Line)
        ensures
            r.descriptor().name == TagName::LINE,
            r.descriptor().entries == seq![
                (Attribute::X, x.spec_text()),
                (Attribute::Y, y.spec_text()),
            ],
            r.body() == None::<Seq<char>>,
    {
        let inner = TagAndAttributes::new(TagName::LINE).with_attr(
            Attribute::X,
            x.to_string().as_str(),
        ).with_attr(Attribute::Y, y.to_string().as_str());
        assert(inner@.entries =~= seq![
            (Attribute::X, x.spec_text()),
            (Attribute::Y, y.spec_text()),
        ]);
        Line { inner }
    }
}

impl Element for Line {
    closed spec fn descriptor(&self) -> TagView {
        self.inner@
    }

    open spec fn body(&self) -> Option<Seq<char>> {
        None
    }

    fn write(&self, out: &mut String) {
        self.inner.write_opening(out, true);
    }
}

impl CoreAttributes for Line {
    fn id(self, id: &str) -> (r: Self) {
        Line { inner: self.inner.with_attr(Attribute::ID, id) }
    }

    fn tabindex(self, tabindex: i32) -> (r: Self) {
        Line { inner: self.inner.with_int_attr(Attribute::TABINDEX, tabindex) }
    }
}

impl StylingAttributes for Line {
    fn add_class(self, class: &str) -> (r: Self) {
        Line { inner: self.inner.with_class(class) }
    }
}

/// A line's markup is one self-closing tag: it ends with ` />`, and when no attribute value
/// holds a `<`, it holds no `<` but the one that opens it, so no closing tag.
pub proof fn lemma_line_self_closing(l: &Line)
    ensures
        l.body() == None::<Seq<char>>,
        markup(l.descriptor(), l.body()) == l.descriptor().opening(true),
        ({
            let m = markup(l.descriptor(), l.body());
            &&& m.len() >= 3
            &&& m.subrange(m.len() - 3, m.len() as int) == seq![' ', '/', '>']
        }),
        (forall|i: int|
            0 <= i < l.descriptor().entries.len() ==> lacks_open_bracket(
                #[trigger] l.descriptor().entries[i].1,
            )) ==> lacks_open_bracket(markup(l.descriptor(), l.body()).drop_first()),
{
    lemma_self_closing_markup(l.descriptor());
}

} // verus!
