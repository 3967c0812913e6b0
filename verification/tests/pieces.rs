use duat::builder::{AlignCenter, AlignLeft, AlignRight, Builder, BuilderPart};
use duat::commands::{split_flags, str_contains, str_equal};
use duat::forms::{Color, Form, FormFormer, Palette, LINE_NUMBERS_ID, MAIN_LINE_NUMBER_ID};
use duat::line_numbers::{digits, get_tag, line_text, write_text, Align, LineNumbersCfg};
use duat::parts::Part;
use duat::tags::{FormId, Tag};
use duat::EditAccum;

fn args(line: &str) -> Vec<String> {
    line.split_whitespace().skip(1).map(String::from).collect()
}

#[test]
fn every_form_that_a_built_text_pushes_is_popped_later() {
    let mut builder = Builder::new();
    builder.push_tag(Tag::PushForm(FormId { id: 3 }));
    builder.push_str("red ");
    builder.push_tag(Tag::PushForm(FormId { id: 4 }));
    builder.push_str("blue");
    builder.push_part(&BuilderPart::from_align_center(AlignCenter));
    builder.push_part(&BuilderPart::ToString(String::from(" mid")));
    builder.push_part(&BuilderPart::from_align_right(AlignRight));
    builder.push_part(&BuilderPart::from_align_left(AlignLeft));
    builder.push_tag(Tag::PushForm(FormId { id: 3 }));
    let text = builder.finish();
    assert_eq!(text.contents(), "red blue mid");
    let parts: Vec<Part> = text.parts().iter().map(|i| i.part).collect();
    for (i, part) in parts.iter().enumerate() {
        if let Part::PushForm(id) = part {
            assert!(parts[i + 1..].contains(&Part::PopForm(*id)), "form {:?} at {}", id, i);
        }
    }
    let tags: Vec<(usize, Tag)> = text.tags.entries.iter().map(|e| (e.offset, e.tag)).collect();
    assert_eq!(
        tags,
        vec![
            (0, Tag::PushForm(FormId { id: 3 })),
            (4, Tag::PopForm(FormId { id: 3 })),
            (4, Tag::PushForm(FormId { id: 4 })),
            (8, Tag::StartAlignCenter),
            (12, Tag::EndAlignCenter),
            (12, Tag::StartAlignRight),
            (12, Tag::EndAlignRight),
            (12, Tag::StartAlignLeft),
            (12, Tag::PopForm(FormId { id: 4 })),
            (12, Tag::PushForm(FormId { id: 3 })),
            (12, Tag::PopForm(FormId { id: 3 })),
            (12, Tag::EndAlignLeft),
        ]
    );
}

#[test]
fn a_builder_that_built_nothing_gives_an_empty_text() {
    let text = Builder::new().finish();
    assert!(text.is_empty());
    assert_eq!(text.tags.len(), 0);
}

#[test]
fn flags_are_split_off_the_arguments() {
    let (flags, rest) = split_flags(&args("my-command --foo --bar -abcde -- --not-a-flag -also-not"));
    assert_eq!(flags.blob, "abcde");
    assert_eq!(flags.units, vec!["foo", "bar"]);
    assert_eq!(rest, 3);
    let (flags, rest) = split_flags(&args("run -abcdefgh -ablk mid --foo args -wz"));
    assert_eq!(flags.blob, "abcdefghlk");
    assert!(flags.units.is_empty());
    assert_eq!(rest, 2);
    assert!(flags.blob("k"));
    assert!(flags.blob("khb"));
    assert!(!flags.blob("w"));
    assert!(!flags.blob("kw"));
    assert!(flags.blob(""));
    let (flags, rest) = split_flags(&args("run --foo --bar --foo args -baz"));
    assert_eq!(flags.units, vec!["foo", "bar"]);
    assert_eq!(rest, 3);
    assert!(flags.unit("foo"));
    assert!(!flags.unit("baz"));
    assert!(!flags.unit("fo"));
    assert!(!flags.is_empty());
    let (flags, rest) = split_flags(&args("run arg1 --foo --bar arg2 -baz"));
    assert!(flags.is_empty());
    assert_eq!(rest, 0);
    let (flags, rest) = split_flags(&args("run - -é"));
    assert_eq!(flags.blob, "é");
    assert_eq!(rest, 2);
    assert!(str_equal("añb", "añb"));
    assert!(!str_equal("ab", "abc"));
    assert!(!str_equal("ab", "ac"));
    assert!(str_contains("añb", 'ñ'));
    assert!(!str_contains("añb", 'n'));
}

#[test]
fn line_numbers_are_aligned_in_their_field() {
    let right = LineNumbersCfg::absolute(Align::Right, Align::Left);
    assert_eq!(line_text(4, 9, false, 4, &right), "   5\n".chars().collect::<Vec<char>>());
    assert_eq!(line_text(9, 9, false, 4, &right), "10  \n".chars().collect::<Vec<char>>());
    assert_eq!(line_text(4, 9, true, 4, &right), "    \n".chars().collect::<Vec<char>>());
    let wraps = LineNumbersCfg::absolute_wraps(Align::Center, Align::Left);
    assert_eq!(line_text(4, 9, true, 4, &wraps), " 5  \n".chars().collect::<Vec<char>>());
    assert_eq!(line_text(122, 9, false, 6, &wraps), " 123  \n".chars().collect::<Vec<char>>());
    assert_eq!(line_text(12344, 9, false, 3, &wraps), "12345\n".chars().collect::<Vec<char>>());
    let relative = LineNumbersCfg::relative(Align::Right, Align::Right);
    assert_eq!(line_text(4, 9, false, 3, &relative), "  5\n".chars().collect::<Vec<char>>());
    assert_eq!(line_text(12, 9, false, 3, &relative), "  3\n".chars().collect::<Vec<char>>());
    assert_eq!(line_text(9, 9, false, 3, &relative), "  0\n".chars().collect::<Vec<char>>());
    let rel_abs = LineNumbersCfg::rel_abs(Align::Right, Align::Right);
    assert_eq!(line_text(9, 9, false, 3, &rel_abs), " 10\n".chars().collect::<Vec<char>>());
    assert_eq!(line_text(8, 9, false, 3, &rel_abs), "  1\n".chars().collect::<Vec<char>>());
    let mut text = String::from("old");
    write_text(&mut text, 41, 0, false, 5, &LineNumbersCfg::relative_wraps(Align::Left, Align::Left));
    assert_eq!(text, "41   \n");
    write_text(&mut text, 41, 0, true, 5, &LineNumbersCfg::rel_abs_wraps(Align::Right, Align::Left));
    assert_eq!(text, "   41\n");
    assert_eq!(digits(0), vec!['0']);
    assert_eq!(digits(9070), vec!['9', '0', '7', '0']);
    assert_eq!(LineNumbersCfg::default(), LineNumbersCfg::absolute(Align::Right, Align::Right));
    assert_eq!(Align::default(), Align::Right);
    assert_eq!(get_tag(3, 3, false), Tag::PushForm(FormId { id: MAIN_LINE_NUMBER_ID }));
    assert_eq!(get_tag(2, 3, false), Tag::PushForm(FormId { id: LINE_NUMBERS_ID }));
    assert_ne!(get_tag(2, 3, true), get_tag(3, 3, true));
}

#[test]
fn forms_are_composed_from_the_bottom_to_the_top() {
    let red = Color { r: 255, g: 0, b: 0 };
    let blue = Color { r: 0, g: 0, b: 255 };
    let mut palette = Palette::new();
    let base = palette.set_form(String::from("Default"), Form { fg: Some(red), bg: None, attrs: 1 });
    let sel = palette.set_form(String::from("MainSel"), Form { fg: None, bg: Some(blue), attrs: 2 });
    let top = palette.set_form(String::from("Top"), Form { fg: Some(blue), bg: None, attrs: 0 });
    assert_eq!((base, sel, top), (Some(FormId { id: 0 }), Some(FormId { id: 1 }), Some(FormId { id: 2 })));
    assert_eq!(palette.id_of(&String::from("MainSel")), sel);
    assert_eq!(palette.id_of(&String::from("Nothing")), None);
    let again = palette.set_form(String::from("Top"), Form { fg: Some(red), bg: None, attrs: 4 });
    assert_eq!(again, top);
    assert_eq!(palette.form_of(FormId { id: 2 }).attrs, 4);
    assert_eq!(palette.form_of(FormId { id: 9 }), Form::plain());
    let mut former = FormFormer::new();
    assert_eq!(former.make_form(&palette), Form::plain());
    former.apply(base.unwrap());
    former.apply(sel.unwrap());
    assert_eq!(former.make_form(&palette), Form { fg: Some(red), bg: Some(blue), attrs: 3 });
    former.apply(top.unwrap());
    former.apply(sel.unwrap());
    assert_eq!(former.make_form(&palette).attrs, 7);
    // The latest occurrence leaves.
    former.remove(sel.unwrap());
    assert_eq!(former.stack, vec![FormId { id: 0 }, FormId { id: 1 }, FormId { id: 2 }]);
    former.remove(FormId { id: 8 });
    assert_eq!(former.stack.len(), 3);
    former.remove(base.unwrap());
    assert_eq!(former.make_form(&palette), Form { fg: Some(red), bg: Some(blue), attrs: 6 });
    assert_eq!(Form::plain().under(Form { fg: Some(red), bg: None, attrs: 8 }).fg, Some(red));
}

#[test]
fn an_accumulator_begins_at_nothing() {
    let accum = EditAccum::default();
    assert_eq!((accum.chars, accum.changes), (0, 0));
}
