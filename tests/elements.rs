use svg_markup::{
    Attribute, CoreAttributes, DecimalValue, Element, LengthOrPercentage, Line,
    StylingAttributes, TagAndAttributes, TagName, Text,
};

fn show(e: &impl Element) -> String {
    let mut out = String::new();
    e.write(&mut out);
    out
}

#[test]
fn create_line() {
    let toe = Line::new(
        LengthOrPercentage::Number(100),
        LengthOrPercentage::Number(200),
    )
    .id("jjdk")
    .add_class("axis")
    .add_class("x-axis");

    let out = show(&toe);
    assert!(out.starts_with("<line"));
    assert!(out.ends_with("/>"));
    assert!(out.contains(" x='100'"));
    assert!(out.contains(" y='200'"));
    assert!(out.contains(" id='jjdk'"));
    assert!(out.contains(" class='axis x-axis'"));
    assert_eq!(out, "<line x='100' y='200' id='jjdk' class='axis x-axis' />");
}

#[test]
fn create_text() {
    let toe = Text::new(
        LengthOrPercentage::Number(20),
        LengthOrPercentage::Number(30),
        "My cat is Grumpy!",
    )
    .id("grumpy-cat")
    .add_class("heavy")
    .add_class("Rrrrrrr");

    assert_eq!(
        show(&toe),
        "<text x='20' y='30' id='grumpy-cat' class='heavy Rrrrrrr'>My cat is Grumpy!</text>"
    );
}

#[test]
fn text_with_id_renders_exactly() {
    let t = Text::new(
        LengthOrPercentage::Number(20),
        LengthOrPercentage::Number(30),
        "My cat is Grumpy!",
    )
    .id("grumpy-cat");
    assert_eq!(
        show(&t),
        "<text x='20' y='30' id='grumpy-cat'>My cat is Grumpy!</text>"
    );
}

#[test]
fn writing_twice_gives_the_same_markup() {
    let l = Line::new(LengthOrPercentage::Pixels(1), LengthOrPercentage::Em(2))
        .id("a")
        .tabindex(4)
        .add_class("c");
    let first = show(&l);
    let second = show(&l);
    assert_eq!(first, second);

    let mut both = String::new();
    l.write(&mut both);
    l.write(&mut both);
    assert_eq!(both, format!("{}{}", first, first));

    let t = Text::new(LengthOrPercentage::Number(1), LengthOrPercentage::Number(2), "hi")
        .add_class("k");
    assert_eq!(show(&t), show(&t));
}

#[test]
fn class_tokens_keep_order_and_repeats() {
    let l = Line::new(LengthOrPercentage::Number(0), LengthOrPercentage::Number(0))
        .add_class("a")
        .add_class("b");
    assert_eq!(show(&l), "<line x='0' y='0' class='a b' />");
    let l = l.add_class("a");
    assert_eq!(show(&l), "<line x='0' y='0' class='a b a' />");
}

#[test]
fn class_added_to_an_empty_class_has_no_separator() {
    let tag = TagAndAttributes::new(TagName::GROUP)
        .with_attr(Attribute::CLASS, "")
        .with_class("b");
    let mut out = String::new();
    tag.write_opening(&mut out, false);
    assert_eq!(out, "<g class='b'>");
}

#[test]
fn last_id_and_tabindex_win() {
    let t = Text::new(LengthOrPercentage::Number(1), LengthOrPercentage::Number(2), "x")
        .id("first")
        .tabindex(1)
        .id("second")
        .tabindex(-3);
    assert_eq!(
        show(&t),
        "<text x='1' y='2' id='second' tabindex='-3'>x</text>"
    );
}

#[test]
fn tabindex_extremes() {
    let l = Line::new(LengthOrPercentage::Number(1), LengthOrPercentage::Number(2))
        .tabindex(i32::MIN);
    assert_eq!(show(&l), "<line x='1' y='2' tabindex='-2147483648' />");
    let l = l.tabindex(i32::MAX);
    assert_eq!(show(&l), "<line x='1' y='2' tabindex='2147483647' />");
    let l = l.tabindex(0);
    assert_eq!(show(&l), "<line x='1' y='2' tabindex='0' />");
}

#[test]
fn line_is_self_closing() {
    let l = Line::new(LengthOrPercentage::Cm(DecimalValue::new(25, 1)), LengthOrPercentage::Mm(DecimalValue::new(3, 0)))
        .id("l")
        .add_class("axis");
    let out = show(&l);
    assert!(out.ends_with(" />"));
    assert!(!out.contains("</"));
    assert_eq!(out.matches('<').count(), 1);
    assert_eq!(out, "<line x='2.5cm' y='3mm' id='l' class='axis' />");
}

#[test]
fn text_body_is_written_unescaped() {
    let t = Text::new(LengthOrPercentage::Number(0), LengthOrPercentage::Number(0), "<b>&'x'</b>");
    assert_eq!(show(&t), "<text x='0' y='0'><b>&'x'</b></text>");
    let empty = Text::new(LengthOrPercentage::Number(0), LengthOrPercentage::Number(0), "");
    assert_eq!(show(&empty), "<text x='0' y='0'></text>");
}

#[test]
fn units_render_with_their_suffixes() {
    let cases = [
        (LengthOrPercentage::Number(7), "7"),
        (LengthOrPercentage::Em(2), "2em"),
        (LengthOrPercentage::Ex(3), "3ex"),
        (LengthOrPercentage::Pixels(12), "12px"),
        (LengthOrPercentage::Inch(DecimalValue::new(15, 1)), "1.5in"),
        (LengthOrPercentage::Cm(DecimalValue::new(25, 1)), "2.5cm"),
        (LengthOrPercentage::Mm(DecimalValue::new(-5, 0)), "-5mm"),
        (LengthOrPercentage::Point(10), "10pt"),
        (LengthOrPercentage::Pica(4), "4pc"),
        (LengthOrPercentage::Percentage(DecimalValue::new(50, 0)), "50%"),
        (LengthOrPercentage::Percentage(DecimalValue::new(500, 1)), "50%"),
    ];
    for (value, text) in cases.iter() {
        assert_eq!(value.to_string(), *text);
    }
}

#[test]
fn integer_units_at_the_edges() {
    assert_eq!(LengthOrPercentage::Number(0).to_string(), "0");
    assert_eq!(LengthOrPercentage::Pixels(10).to_string(), "10px");
    assert_eq!(
        LengthOrPercentage::Number(usize::MAX).to_string(),
        format!("{}", usize::MAX)
    );
}

#[test]
fn decimals_render_in_shortest_form() {
    assert_eq!(DecimalValue::new(5, 3).to_string(), "0.005");
    assert_eq!(DecimalValue::new(1000, 3).to_string(), "1");
    assert_eq!(DecimalValue::new(1050, 3).to_string(), "1.05");
    assert_eq!(DecimalValue::new(0, 5).to_string(), "0");
    assert_eq!(DecimalValue::new(-125, 2).to_string(), "-1.25");
    assert_eq!(DecimalValue::new(-5, 1).to_string(), "-0.5");
    assert_eq!(DecimalValue::new(120, 0).to_string(), "120");
    assert_eq!(DecimalValue::new(i64::MIN, 0).to_string(), "-9223372036854775808");
    assert_eq!(DecimalValue::new(i64::MAX, 18).to_string(), "9.223372036854775807");
    assert_eq!(
        DecimalValue::new(7, 25).to_string(),
        "0.0000000000000000000000007"
    );
}

#[test]
fn tag_descriptor_writes_opening_and_closing() {
    let tag = TagAndAttributes::new(TagName::GROUP).with_attr(Attribute::VIEWBOX, "0 0 10 10");
    let mut out = String::new();
    tag.write_opening(&mut out, false);
    tag.write_closing(&mut out);
    assert_eq!(out, "<g viewbox='0 0 10 10'></g>");

    let doc = TagAndAttributes::new(TagName::DOCUMENT);
    let mut out = String::new();
    doc.write_opening(&mut out, true);
    assert_eq!(out, "<svg />");
    doc.write_closing(&mut out);
    assert_eq!(out, "<svg /></svg>");
}

#[test]
fn with_attr_replaces_in_place() {
    let tag = TagAndAttributes::new(TagName::LINE)
        .with_attr(Attribute::X, "1")
        .with_attr(Attribute::Y, "2")
        .with_attr(Attribute::X, "3")
        .with_int_attr(Attribute::TABINDEX, 9);
    let mut out = String::new();
    tag.write_opening(&mut out, true);
    assert_eq!(out, "<line x='3' y='2' tabindex='9' />");
}

#[test]
fn names_are_written_as_svg_has_them() {
    assert_eq!(TagName::DOCUMENT.to_str(), "svg");
    assert_eq!(TagName::GROUP.to_str(), "g");
    assert_eq!(TagName::LINE.to_str(), "line");
    assert_eq!(TagName::TEXT.to_str(), "text");
    assert_eq!(Attribute::VIEWBOX.to_str(), "viewbox");
    assert_eq!(Attribute::X.to_str(), "x");
    assert_eq!(Attribute::Y.to_str(), "y");
    assert_eq!(Attribute::ID.to_str(), "id");
    assert_eq!(Attribute::CLASS.to_str(), "class");
    assert_eq!(Attribute::TABINDEX.to_str(), "tabindex");
}
