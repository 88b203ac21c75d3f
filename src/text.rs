//! The `text` element.
use vstd::prelude::*;

use crate::element::{
    entries_text, markup, Attribute, CoreAttributes, Element, StylingAttributes,
    TagAndAttributes, TagName, TagView,
};
use crate::unit::LengthOrPercentage;

verus! {

/// A text element: an opening tag, its text as it is, and a closing tag.
pub struct Text {
    inner: TagAndAttributes,
    text: String,
}

impl Text {
    /// A text element at `x`, `y` holding `text`.
    pub fn new(x: LengthOrPercentage, y: LengthOrPercentage, text: &str) -> (r: Text)
        ensures
            r.descriptor().name == TagName::TEXT,
            r.descriptor().entries == seq![
                (Attribute::X, x.spec_text()),
                (Attribute::Y, y.spec_text()),
            ],
            r.body() == Some(text@),
    {
        let inner = TagAndAttributes::new(TagName::TEXT).with_attr(
            Attribute::X,
            x.to_string().as_str(),
        ).with_attr(Attribute::Y, y.to_string().as_str());
        assert(inner@.entries =~= seq![
            (Attribute::X, x.spec_text()),
            (Attribute::Y, y.spec_text()),
        ]);
        Text { inner, text: text.to_owned() }
    }
}

impl Element for Text {
    closed spec fn descriptor(&self) -> TagView {
        self.inner@
    }

    closed spec fn body(&self) -> Option<Seq<char>> {
        Some(self.text@)
    }

    fn write(&self, out: &mut String) {
        let ghost start = out@;
        self.inner.write_opening(out, false);
        out.append(self.text.as_str());
        self.inner.write_closing(out);
        assert(out@ =~= start + self.inner@.opening(false) + self.text@ + self.inner@.closing());
    }
}

impl CoreAttributes for Text {
    fn id(self, id: &str) -> (r: Self) {
        Text { inner: self.inner.with_attr(Attribute::ID, id), text: self.text }
    }

    fn tabindex(self, tabindex: i32) -> (r: Self) {
        Text { inner: self.inner.with_int_attr(Attribute::TABINDEX, tabindex), text: self.text }
    }
}

impl StylingAttributes for Text {
    fn add_class(self, class: &str) -> (r: Self) {
        Text { inner: self.inner.with_class(class), text: self.text }
    }
}

/// A text element's markup is `<text attrs>`, then its body exactly as given, then
/// `</text>`.
pub proof fn lemma_text_markup(t: &Text)
    requires
        t.descriptor().name == TagName::TEXT,
    ensures
        t.body() is Some,
        markup(t.descriptor(), t.body()) == seq!['<', 't', 'e', 'x', 't'] + entries_text(
            t.descriptor().entries,
        ) + seq!['>'] + t.body()->0 + seq!['<', '/', 't', 'e', 'x', 't', '>'],
{
    assert(markup(t.descriptor(), t.body()) =~= seq!['<', 't', 'e', 'x', 't'] + entries_text(
        t.descriptor().entries,
    ) + seq!['>'] + t.body()->0 + seq!['<', '/', 't', 'e', 'x', 't', '>']);
}

} // verus!
