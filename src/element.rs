//! Tags, their attribute stores, and the markup they render to.
use vstd::prelude::*;

use crate::unit::{int_text, push_int};

verus! {

/// The kinds of tag an element can have.
#[derive(Clone, Copy, Debug, PartialEq, Eq, Structural)]
pub enum TagName {
    DOCUMENT,
    GROUP,
    LINE,
    TEXT,
}

/// The attributes an element can carry.
#[derive(Clone, Copy, Debug, PartialEq, Eq, Hash, Structural)]
pub enum Attribute {
    VIEWBOX,
    X,
    Y,
    ID,
    CLASS,
    TABINDEX,
}

impl TagName {
    /// The name written in the markup.
    pub open spec fn spec_name(self) -> Seq<char> {
        match self {
            TagName::DOCUMENT => seq!['s', 'v', 'g'],
            TagName::GROUP => seq!['g'],
            TagName::LINE => seq!['l', 'i', 'n', 'e'],
            TagName::TEXT => seq!['t', 'e', 'x', 't'],
        }
    }

    /// The name written in the markup.
    pub fn to_str(&self) -> (s: &'static str)
        ensures
            s@ == self.spec_name(),
    {
        match self {
            TagName::DOCUMENT => {
                proof { reveal_strlit("svg"); }
                "svg"
            },
            TagName::GROUP => {
                proof { reveal_strlit("g"); }
                "g"
            },
            TagName::LINE => {
                proof { reveal_strlit("line"); }
                "line"
            },
            TagName::TEXT => {
                proof { reveal_strlit("text"); }
                "text"
            },
        }
    }
}

impl Attribute {
    /// The name written in the markup.
    pub open spec fn spec_name(self) -> Seq<char> {
        match self {
            Attribute::VIEWBOX => seq!['v', 'i', 'e', 'w', 'b', 'o', 'x'],
            Attribute::X => seq!['x'],
            Attribute::Y => seq!['y'],
            Attribute::ID => seq!['i', 'd'],
            Attribute::CLASS => seq!['c', 'l', 'a', 's', 's'],
            Attribute::TABINDEX => seq!['t', 'a', 'b', 'i', 'n', 'd', 'e', 'x'],
        }
    }

    /// The name written in the markup.
    pub fn to_str(&self) -> (s: &'static str)
        ensures
            s@ == self.spec_name(),
    {
        match self {
            Attribute::VIEWBOX => {
                proof { reveal_strlit("viewbox"); }
                "viewbox"
            },
            Attribute::X => {
                proof { reveal_strlit("x"); }
                "x"
            },
            Attribute::Y => {
                proof { reveal_strlit("y"); }
                "y"
            },
            Attribute::ID => {
                proof { reveal_strlit("id"); }
                "id"
            },
            Attribute::CLASS => {
                proof { reveal_strlit("class"); }
                "class"
            },
            Attribute::TABINDEX => {
                proof { reveal_strlit("tabindex"); }
                "tabindex"
            },
        }
    }
}

/// The markup of an element with tag `tag`: a self-closing opening tag when it has no body,
/// else the opening tag, the body as it is, and the closing tag.
pub open spec fn markup(tag: TagView, body: Option<Seq<char>>) -> Seq<char> {
    match body {
        None => tag.opening(true),
        Some(b) => tag.opening(false) + b + tag.closing(),
    }
}

/// Something that renders to markup.
pub trait Element {
    /// The element's tag and attributes.
    spec fn descriptor(&self) -> TagView;

    /// The text between the opening and the closing tag; none for a self-closing element.
    spec fn body(&self) -> Option<Seq<char>>;

    /// Appends the element's markup to `out`.
    fn write(&self, out: &mut String)
        ensures
            final(out)@ == old(out)@ + markup(self.descriptor(), self.body()),
    ;
}

/// The core identity attributes `id` and `tabindex`.
pub trait CoreAttributes: Element + Sized {
    /// The element with its `id` set to `id`.
    fn id(self, id: &str) -> (r: Self)
        ensures
            r.descriptor() == self.descriptor().set(Attribute::ID, id@),
            r.descriptor().wf(),
            r.body() == self.body(),
    ;

    /// The element with its `tabindex` set to `tabindex`.
    fn tabindex(self, tabindex: i32) -> (r: Self)
        ensures
            r.descriptor() == self.descriptor().set(Attribute::TABINDEX, int_text(tabindex as int)),
            r.descriptor().wf(),
            r.body() == self.body(),
    ;
}

/// The styling attribute `class`.
pub trait StylingAttributes: Element + Sized {
    /// The element with `class` added to its class list.
    fn add_class(self, class: &str) -> (r: Self)
        ensures
            r.descriptor() == self.descriptor().add_class(class@),
            r.descriptor().wf(),
            r.body() == self.body(),
    ;
}

/// One stored attribute: its name and its formatted value.
pub type Entry = (Attribute, Seq<char>);

/// The text of one attribute in an opening tag: ` name='value'`.
pub open spec fn entry_text(e: Entry) -> Seq<char> {
    seq![' '] + e.0.spec_name() + seq!['=', '\''] + e.1 + seq!['\'']
}

/// The text of all attributes, in the order they are stored.
pub open spec fn entries_text(entries: Seq<Entry>) -> Seq<char>
    decreases entries.len(),
{
    if entries.len() == 0 {
        Seq::empty()
    } else {
        entries_text(entries.drop_last()) + entry_text(entries.last())
    }
}

/// The class value after adding the token `c` to the value `current` (if any): tokens are
/// separated by one space, and a missing or empty value takes the token alone.
pub open spec fn joined_class(current: Option<Seq<char>>, c: Seq<char>) -> Seq<char> {
    match current {
        Some(v) => if v.len() > 0 {
            v + seq![' '] + c
        } else {
            c
        },
        None => c,
    }
}

/// A tag as a value: its name and its attributes in the order they were first set.
pub struct TagView {
    pub name: TagName,
    pub entries: Seq<Entry>,
}

impl TagView {
    /// No attribute is stored twice.
    pub open spec fn wf(self) -> bool {
        forall|i: int, j: int|
            0 <= i < j < self.entries.len() ==> #[trigger] self.entries[i].0
                != #[trigger] self.entries[j].0
    }

    /// Whether a value is stored for `a`.
    pub open spec fn has(self, a: Attribute) -> bool {
        exists|i: int| 0 <= i < self.entries.len() && #[trigger] self.entries[i].0 == a
    }

    /// Where `a` is stored, when it is.
    pub open spec fn index_of(self, a: Attribute) -> int {
        choose|i: int| 0 <= i < self.entries.len() && #[trigger] self.entries[i].0 == a
    }

    /// The value stored for `a`, if any.
    pub open spec fn value(self, a: Attribute) -> Option<Seq<char>> {
        if self.has(a) {
            Some(self.entries[self.index_of(a)].1)
        } else {
            None
        }
    }

    /// The tag after storing `v` for `a`: a stored value is replaced in its place, a new
    /// attribute goes last.
    pub open spec fn set(self, a: Attribute, v: Seq<char>) -> TagView {
        TagView {
            name: self.name,
            entries: if self.has(a) {
                self.entries.update(self.index_of(a), (a, v))
            } else {
                self.entries.push((a, v))
            },
        }
    }

    /// The tag after adding the class token `c`.
    pub open spec fn add_class(self, c: Seq<char>) -> TagView {
        self.set(Attribute::CLASS, joined_class(self.value(Attribute::CLASS), c))
    }

    /// `<name attrs />` when `close`, else `<name attrs>`.
    pub open spec fn opening(self, close: bool) -> Seq<char> {
        seq!['<'] + self.name.spec_name() + entries_text(self.entries) + if close {
            seq![' ', '/', '>']
        } else {
            seq!['>']
        }
    }

    /// `</name>`.
    pub open spec fn closing(self) -> Seq<char> {
        seq!['<', '/'] + self.name.spec_name() + seq!['>']
    }
}

/// Storing a value keeps every attribute stored once.
pub proof fn lemma_set_wf(t: TagView, a: Attribute, v: Seq<char>)
    requires
        t.wf(),
    ensures
        t.set(a, v).wf(),
        t.set(a, v).has(a),
        t.set(a, v).value(a) == Some(v),
{
    let s = t.set(a, v);
    if t.has(a) {
        let i = t.index_of(a);
        assert(s.entries[i].0 == a);
        assert(s.index_of(a) == i);
    } else {
        let n = t.entries.len() as int;
        assert(s.entries[n].0 == a);
        assert(s.index_of(a) == n);
    }
}

/// Storing twice for one attribute leaves the tag as storing only the last value would.
pub proof fn lemma_last_set_wins(t: TagView, a: Attribute, first: Seq<char>, last: Seq<char>)
    requires
        t.wf(),
    ensures
        t.set(a, first).set(a, last) == t.set(a, last),
        t.set(a, first).set(a, last).value(a) == Some(last),
{
    lemma_set_wf(t, a, first);
    lemma_set_wf(t, a, last);
    let s = t.set(a, first);
    lemma_set_wf(s, a, last);
    if t.has(a) {
        assert(s.index_of(a) == t.index_of(a));
        assert(s.set(a, last).entries =~= t.set(a, last).entries);
    } else {
        let n = t.entries.len() as int;
        assert(s.index_of(a) == n);
        assert(s.set(a, last).entries =~= t.set(a, last).entries);
    }
}

/// The tag after adding each of `tokens` to its class list, in order.
pub open spec fn add_classes(t: TagView, tokens: Seq<Seq<char>>) -> TagView
    decreases tokens.len(),
{
    if tokens.len() == 0 {
        t
    } else {
        add_classes(t, tokens.drop_last()).add_class(tokens.last())
    }
}

/// `tokens` joined with single spaces.
pub open spec fn space_joined(tokens: Seq<Seq<char>>) -> Seq<char>
    decreases tokens.len(),
{
    if tokens.len() == 0 {
        Seq::empty()
    } else if tokens.len() == 1 {
        tokens[0]
    } else {
        space_joined(tokens.drop_last()) + seq![' '] + tokens.last()
    }
}

/// On a tag without a class, adding non-empty class tokens one after another gives a class
/// value that lists them all, separated by single spaces, in the order they were added and
/// with repeats kept.
pub proof fn lemma_class_tokens_accumulate(t: TagView, tokens: Seq<Seq<char>>)
    requires
        t.wf(),
        !t.has(Attribute::CLASS),
        forall|i: int| 0 <= i < tokens.len() ==> #[trigger] tokens[i].len() > 0,
    ensures
        add_classes(t, tokens).wf(),
        add_classes(t, tokens).name == t.name,
        tokens.len() == 0 ==> !add_classes(t, tokens).has(Attribute::CLASS),
        tokens.len() > 0 ==> add_classes(t, tokens).value(Attribute::CLASS) == Some(
            space_joined(tokens),
        ),
    decreases tokens.len(),
{
    if tokens.len() > 0 {
        let rest = tokens.drop_last();
        assert forall|i: int| 0 <= i < rest.len() implies #[trigger] rest[i].len() > 0 by {
            assert(rest[i] == tokens[i]);
        }
        lemma_class_tokens_accumulate(t, rest);
        let before = add_classes(t, rest);
        let joined = joined_class(before.value(Attribute::CLASS), tokens.last());
        lemma_set_wf(before, Attribute::CLASS, joined);
        if rest.len() > 0 {
            assert(rest.len() > 0 ==> space_joined(rest).len() >= rest.last().len()) by {
                if rest.len() > 1 {
                    assert(space_joined(rest) == space_joined(rest.drop_last()) + seq![' ']
                        + rest.last());
                }
            }
            assert(rest.last() == tokens[rest.len() - 1]);
        }
    }
}

/// No `<` in `s`.
pub open spec fn lacks_open_bracket(s: Seq<char>) -> bool {
    forall|i: int| 0 <= i < s.len() ==> s[i] != '<'
}

proof fn lemma_names_lack_open_bracket(a: Attribute)
    ensures
        lacks_open_bracket(a.spec_name()),
{
}

proof fn lemma_entries_lack_open_bracket(entries: Seq<Entry>)
    requires
        forall|i: int| 0 <= i < entries.len() ==> lacks_open_bracket(#[trigger] entries[i].1),
    ensures
        lacks_open_bracket(entries_text(entries)),
    decreases entries.len(),
{
    if entries.len() > 0 {
        let rest = entries.drop_last();
        assert forall|i: int| 0 <= i < rest.len() implies lacks_open_bracket(
            #[trigger] rest[i].1,
        ) by {
            assert(rest[i] == entries[i]);
        }
        lemma_entries_lack_open_bracket(rest);
        let e = entries.last();
        assert(lacks_open_bracket(e.1));
        lemma_names_lack_open_bracket(e.0);
        let t = entry_text(e);
        assert(lacks_open_bracket(t)) by {
            assert forall|i: int| 0 <= i < t.len() implies t[i] != '<' by {
                let n = e.0.spec_name().len() as int;
                if 1 <= i < 1 + n {
                    assert(t[i] == e.0.spec_name()[i - 1]);
                } else if 3 + n <= i < 3 + n + e.1.len() {
                    assert(t[i] == e.1[i - 3 - n]);
                }
            }
        }
        let all = entries_text(entries);
        assert forall|i: int| 0 <= i < all.len() implies all[i] != '<' by {
            let k = entries_text(rest).len() as int;
            if i < k {
                assert(all[i] == entries_text(rest)[i]);
            } else {
                assert(all[i] == t[i - k]);
            }
        }
    }
}

/// A self-closing element's markup is its opening tag alone: it ends with ` />`, and when no
/// attribute value holds a `<`, the `<` that opens it is the only one, so it holds no closing
/// tag.
pub proof fn lemma_self_closing_markup(t: TagView)
    ensures
        markup(t, None) == t.opening(true),
        markup(t, None).len() >= 3,
        markup(t, None).subrange(markup(t, None).len() - 3, markup(t, None).len() as int)
            == seq![' ', '/', '>'],
        (forall|i: int| 0 <= i < t.entries.len() ==> lacks_open_bracket(#[trigger] t.entries[i].1))
            ==> markup(t, None)[0] == '<' && lacks_open_bracket(markup(t, None).drop_first()),
{
    let m = markup(t, None);
    let tail = seq![' ', '/', '>'];
    assert(m.subrange(m.len() - 3, m.len() as int) =~= tail);
    if forall|i: int| 0 <= i < t.entries.len() ==> lacks_open_bracket(#[trigger] t.entries[i].1) {
        lemma_entries_lack_open_bracket(t.entries);
        let name = t.name.spec_name();
        let attrs = entries_text(t.entries);
        assert(lacks_open_bracket(name));
        assert(m.drop_first() =~= name + attrs + tail);
        let rest = m.drop_first();
        assert forall|i: int| 0 <= i < rest.len() implies rest[i] != '<' by {
            if i < name.len() {
                assert(rest[i] == name[i]);
            } else if i < name.len() + attrs.len() {
                assert(rest[i] == attrs[i - name.len()]);
            } else {
                assert(rest[i] == tail[i - name.len() - attrs.len()]);
            }
        }
    }
}

/// A tag with its attribute store.
pub struct TagAndAttributes {
    tag_name: TagName,
    attributes: Vec<(Attribute, String)>,
}

impl View for TagAndAttributes {
    type V = TagView;

    closed spec fn view(&self) -> TagView {
        TagView {
            name: self.tag_name,
            entries: self.attributes@.map_values(|e: (Attribute, String)| (e.0, e.1@)),
        }
    }
}

impl TagAndAttributes {
    #[verifier::type_invariant]
    spec fn inv(&self) -> bool {
        self@.wf()
    }

    /// A tag with no attributes.
    pub fn new(tag_name: TagName) -> (r: Self)
        ensures
            r@.name == tag_name,
            r@.entries == Seq::<Entry>::empty(),
    {
        let r = TagAndAttributes { tag_name, attributes: Vec::new() };
        assert(r@.entries =~= Seq::<Entry>::empty());
        r
    }

    /// Where `name` is stored, if it is.
    fn find(&self, name: Attribute) -> (r: Option<usize>)
        ensures
            match r {
                Some(i) => self@.has(name) && i == self@.index_of(name),
                None => !self@.has(name),
            },
    {
        proof { use_type_invariant(self); }
        let mut i: usize = 0;
        while i < self.attributes.len()
            invariant
                i <= self.attributes@.len(),
                self@.wf(),
                forall|j: int| 0 <= j < i ==> #[trigger] self@.entries[j].0 != name,
            decreases self.attributes@.len() - i,
        {
            if self.attributes[i].0 == name {
                assert(self@.entries[i as int].0 == name);
                assert(self@.has(name));
                assert(self@.index_of(name) == i);
                return Some(i);
            }
            assert(self@.entries[i as int].0 != name);
            i = i + 1;
        }
        None
    }

    /// The tag with `value` stored for `name`: a stored value is replaced in its place, a new
    /// attribute goes last.
    pub fn with_attr(self, name: Attribute, value: &str) -> (r: Self)
        ensures
            r@ == self@.set(name, value@),
            r@.wf(),
    {
        proof {
            use_type_invariant(&self);
            lemma_set_wf(self@, name, value@);
        }
        let found = self.find(name);
        let entry = (name, value.to_owned());
        let mut attributes = self.attributes;
        match found {
            Some(i) => {
                attributes.set(i, entry);
            },
            None => {
                attributes.push(entry);
            },
        }
        assert(attributes@.map_values(|e: (Attribute, String)| (e.0, e.1@)) =~= self@.set(
            name,
            value@,
        ).entries);
        TagAndAttributes { tag_name: self.tag_name, attributes }
    }

    /// The tag with the text of `value` stored for `name`.
    pub fn with_int_attr(self, name: Attribute, value: i32) -> (r: Self)
        ensures
            r@ == self@.set(name, int_text(value as int)),
            r@.wf(),
    {
        let mut text = String::new();
        push_int(&mut text, value as i64);
        assert(text@ =~= int_text(value as int));
        self.with_attr(name, text.as_str())
    }

    /// The tag with the token `class` added to its class attribute.
    pub fn with_class(self, class: &str) -> (r: Self)
        ensures
            r@ == self@.add_class(class@),
            r@.wf(),
    {
        proof { use_type_invariant(&self); }
        let ghost joined = joined_class(self@.value(Attribute::CLASS), class@);
        proof { lemma_set_wf(self@, Attribute::CLASS, joined); }
        let found = self.find(Attribute::CLASS);
        let mut attributes = self.attributes;
        match found {
            Some(i) => {
                let mut v = attributes[i].1.clone();
                if !v.as_str().is_empty() {
                    proof { reveal_strlit(" "); }
                    v.append(" ");
                }
                v.append(class);
                assert(v@ =~= joined);
                attributes.set(i, (Attribute::CLASS, v));
            },
            None => {
                attributes.push((Attribute::CLASS, class.to_owned()));
            },
        }
        assert(attributes@.map_values(|e: (Attribute, String)| (e.0, e.1@)) =~= self@.set(
            Attribute::CLASS,
            joined,
        ).entries);
        TagAndAttributes { tag_name: self.tag_name, attributes }
    }

    /// Appends the opening tag to `out`, self-closing when `close`.
    pub fn write_opening(&self, out: &mut String, close: bool)
        ensures
            final(out)@ == old(out)@ + self@.opening(close),
    {
        let ghost start = out@;
        let ghost entries = self@.entries;
        proof { reveal_strlit("<"); }
        out.append("<");
        out.append(self.tag_name.to_str());
        let mut i: usize = 0;
        assert(entries.take(0) =~= Seq::<Entry>::empty());
        while i < self.attributes.len()
            invariant
                i <= self.attributes@.len(),
                entries == self@.entries,
                out@ == start + seq!['<'] + self.tag_name.spec_name() + entries_text(
                    entries.take(i as int),
                ),
            decreases self.attributes@.len() - i,
        {
            let ghost before = out@;
            let attribute = &self.attributes[i];
            proof {
                reveal_strlit(" ");
                reveal_strlit("='");
                reveal_strlit("'");
            }
            out.append(" ");
            out.append(attribute.0.to_str());
            out.append("='");
            out.append(attribute.1.as_str());
            out.append("'");
            proof {
                let e = entries[i as int];
                assert(entries.take(i + 1).drop_last() =~= entries.take(i as int));
                assert(out@ =~= before + entry_text(e));
            }
            i = i + 1;
        }
        assert(entries.take(i as int) =~= entries);
        if close {
            proof { reveal_strlit(" />"); }
            out.append(" />");
        } else {
            proof { reveal_strlit(">"); }
            out.append(">");
        }
        assert(out@ =~= start + self@.opening(close));
    }

    /// Appends the closing tag to `out`.
    pub fn write_closing(&self, out: &mut String)
        ensures
            final(out)@ == old(out)@ + self@.closing(),
    {
        proof {
            reveal_strlit("</");
            reveal_strlit(">");
        }
        out.append("</");
        out.append(self.tag_name.to_str());
        out.append(">");
        assert(final(out)@ =~= old(out)@ + self@.closing());
    }
}

} // verus!
