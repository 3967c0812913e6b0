use duat::parts::{Item, Part};
use duat::position::Pos;
use duat::tags::{FormId, Marker, Tag, TagEntry, Tags};
use duat::text::Text;

fn offsets(text: &Text) -> Vec<usize> {
    text.tags.entries.iter().map(|e| e.offset).collect()
}

fn chars_of(items: &[Item]) -> String {
    items.iter().filter_map(|i| i.part.as_char()).collect()
}

#[test]
fn bytes_stay_valid_utf8_after_every_mutation() {
    let mut text = Text::new("héllo wörld");
    assert!(String::from_utf8(text.bytes_in(0, text.len_bytes())).is_ok());
    // "é" takes the bytes 1..3.
    text.replace_range(1, 3, "日本".as_bytes());
    assert_eq!(text.contents(), "h日本llo wörld");
    assert!(String::from_utf8(text.bytes_in(0, text.len_bytes())).is_ok());
    let end = text.len_bytes();
    text.replace_range(end, end, "!".as_bytes());
    text.replace_range(0, 1, "".as_bytes());
    assert_eq!(text.contents(), "日本llo wörld!");
    assert!(String::from_utf8(text.bytes_in(0, text.len_bytes())).is_ok());
}

#[test]
fn tag_offsets_stay_within_the_text_and_between_characters() {
    let mut text = Text::new("aébcd");
    let marker = Marker { id: 7 };
    for at in [0usize, 1, 3, 4, 6] {
        text.insert_tag(at, Tag::MainCursor, marker);
    }
    text.replace_range(1, 4, "ö".as_bytes());
    assert_eq!(text.contents(), "aöcd");
    let len = text.len_bytes();
    for at in offsets(&text) {
        assert!(at <= len);
        assert!(text.is_boundary(at));
        assert!(text.contents().is_char_boundary(at));
    }
    // The tag strictly inside the range is gone, the tags at its start
    // stay, and the others follow the text.
    assert_eq!(offsets(&text), vec![0, 1, 3, 5]);
}

#[test]
fn transform_range_drops_what_is_inside_and_shifts_what_follows() {
    let mut tags = Tags::new();
    let m = Marker { id: 1 };
    for at in [0usize, 2, 4, 6, 8] {
        tags.insert(at, Tag::ExtraCursor, m);
    }
    tags.transform_range(2, 6, 3);
    let got: Vec<usize> = tags.entries.iter().map(|e| e.offset).collect();
    assert_eq!(got, vec![0, 2, 3, 5]);
}

#[test]
fn an_insertion_leaves_the_tags_at_its_offset_in_place() {
    let mut tags = Tags::new();
    let m = Marker { id: 1 };
    tags.insert(3, Tag::MainCursor, m);
    tags.insert(5, Tag::ExtraCursor, m);
    tags.transform_range(3, 3, 7);
    let got: Vec<usize> = tags.entries.iter().map(|e| e.offset).collect();
    assert_eq!(got, vec![3, 9]);
}

#[test]
fn tags_at_one_offset_keep_the_order_in_which_they_came() {
    let mut tags = Tags::new();
    let m = Marker { id: 1 };
    tags.insert(4, Tag::PushForm(FormId { id: 1 }), m);
    tags.insert(2, Tag::MainCursor, m);
    tags.insert(4, Tag::PopForm(FormId { id: 1 }), m);
    tags.insert(4, Tag::ExtraCursor, m);
    let got: Vec<(usize, Tag)> = tags.entries.iter().map(|e| (e.offset, e.tag)).collect();
    assert_eq!(
        got,
        vec![
            (2, Tag::MainCursor),
            (4, Tag::PushForm(FormId { id: 1 })),
            (4, Tag::PopForm(FormId { id: 1 })),
            (4, Tag::ExtraCursor),
        ]
    );
    assert_eq!(tags.first_at(4), 1);
    assert_eq!(tags.after_at(4), 4);
    assert_eq!(tags.iter_at(3).len(), 3);
    let rev = tags.rev_iter_at(4);
    assert_eq!(rev.len(), 1);
    assert_eq!(rev[0].tag, Tag::MainCursor);
}

#[test]
fn remove_on_takes_the_tags_of_the_given_markers_only() {
    let mut tags = Tags::new();
    let mine = Marker { id: 1 };
    let other = Marker { id: 2 };
    tags.insert(4, Tag::MainCursor, mine);
    tags.insert(4, Tag::ExtraCursor, other);
    tags.insert(5, Tag::ExtraCursor, mine);
    tags.remove_on(4, &vec![mine]);
    let got: Vec<TagEntry> = tags.entries.clone();
    assert_eq!(
        got,
        vec![
            TagEntry { offset: 4, tag: Tag::ExtraCursor, marker: other },
            TagEntry { offset: 5, tag: Tag::ExtraCursor, marker: mine },
        ]
    );
}

#[test]
fn positions_count_bytes_characters_lines_and_columns() {
    let text = Text::new("aé\nb");
    assert_eq!(text.len_bytes(), 5);
    assert_eq!(text.len_chars(), 4);
    assert_eq!(text.len_lines(), 2);
    assert_eq!(text.point_at(0), Pos { byte: 0, ch: 0, col: 0, row: 0 });
    assert_eq!(text.point_at(3), Pos { byte: 3, ch: 2, col: 2, row: 0 });
    assert_eq!(text.point_at(4), Pos { byte: 4, ch: 3, col: 0, row: 1 });
    assert_eq!(text.point_at(5), Pos { byte: 5, ch: 4, col: 1, row: 1 });
    assert_eq!(text.char_to_byte(1), 1);
    assert_eq!(text.char_to_byte(2), 3);
    assert_eq!(text.char_to_byte(4), 5);
    assert_eq!(text.char_to_byte(100), 5);
    assert_eq!(text.line_to_byte(0), 0);
    assert_eq!(text.line_to_byte(1), 4);
    assert_eq!(text.line_to_byte(2), 5);
    assert_eq!(text.line_start(3), 0);
    assert_eq!(text.line_start(5), 4);
    assert_eq!(text.line_end(0), 3);
    assert_eq!(text.line_end(4), 5);
    assert_eq!(text.point_at(3).byte(), 4);
    assert_eq!(text.point_at(3).char(), 3);
    assert_eq!(text.point_at(3).col(), 3);
    assert_eq!(text.point_at(3).row(), 1);
}

#[test]
fn an_empty_text_has_one_line_and_no_characters() {
    let text = Text::new("");
    assert!(text.is_empty());
    assert_eq!(text.len_chars(), 0);
    assert_eq!(text.len_lines(), 1);
    assert_eq!(text.char_at(0), None);
    assert_eq!(text.parts().len(), 0);
}

#[test]
fn char_at_decodes_characters_of_every_width() {
    let text = Text::new("a é 日 𝄞");
    assert_eq!(text.char_at(0), Some('a'));
    assert_eq!(text.char_at(2), Some('é'));
    assert_eq!(text.char_at(3), None);
    assert_eq!(text.char_at(5), Some('日'));
    assert_eq!(text.char_at(9), Some('𝄞'));
    assert_eq!(text.char_at(13), None);
    assert_eq!(text.snap(3), 2);
    assert_eq!(text.snap(12), 9);
    assert_eq!(text.snap(99), 13);
    assert_eq!(text.point_near(11).true_char(), 6);
}

#[test]
fn the_stream_gives_tags_before_the_character_at_their_offset() {
    let mut text = Text::new("ab");
    let m = Marker { id: 3 };
    text.insert_tag(1, Tag::PushForm(FormId { id: 9 }), m);
    text.insert_tag(1, Tag::MainCursor, m);
    text.insert_tag(2, Tag::PopForm(FormId { id: 9 }), m);
    let parts: Vec<Part> = text.parts().iter().map(|i| i.part).collect();
    assert_eq!(
        parts,
        vec![
            Part::Char('a'),
            Part::PushForm(FormId { id: 9 }),
            Part::MainCursor,
            Part::Char('b'),
            Part::PopForm(FormId { id: 9 }),
        ]
    );
    let places: Vec<(usize, usize)> = text.parts().iter().map(|i| (i.byte, i.ch)).collect();
    assert_eq!(places, vec![(0, 0), (1, 1), (1, 1), (1, 1), (2, 2)]);
}

#[test]
fn concealed_characters_are_left_out_and_end_with_a_termination() {
    let mut text = Text::new("abcdef");
    let m = Marker { id: 3 };
    text.insert_tag(2, Tag::ConcealStart, m);
    text.insert_tag(4, Tag::ConcealEnd, m);
    let items = text.parts();
    assert_eq!(chars_of(&items), "abef");
    let parts: Vec<Part> = items.iter().map(|i| i.part).collect();
    assert_eq!(parts[2], Part::Termination);
    assert_eq!(parts.len(), 5);
}

#[test]
fn a_ghost_text_is_spliced_in_and_ends_with_a_termination() {
    let mut text = Text::new("ab");
    let m = Marker { id: 3 };
    let ghost = vec![Part::Char('x'), Part::Char('y')];
    let id = text.insert_ghost(1, ghost, m);
    assert_eq!(id.id, 0);
    let parts: Vec<Part> = text.parts().iter().map(|i| i.part).collect();
    assert_eq!(
        parts,
        vec![
            Part::Char('a'),
            Part::Char('x'),
            Part::Char('y'),
            Part::Termination,
            Part::Char('b'),
        ]
    );
    assert_eq!(text.contents(), "ab");
}

#[test]
fn the_stream_of_a_range_stops_before_its_limit() {
    let text = Text::new("ab\ncd\nef");
    let items = text.parts_in(3, 6);
    assert_eq!(chars_of(&items), "cd\n");
    assert_eq!(items[0].ch, 3);
}

#[test]
fn the_gap_moves_out_of_a_range_that_is_to_lie_in_one_piece() {
    let mut text = Text::new("hello world");
    text.replace_range(5, 5, ",".as_bytes());
    text.make_contiguous_in(2, 9);
    assert_eq!(text.continuous_in(2, 9), "llo, wo".as_bytes());
    text.make_contiguous_in(0, 12);
    assert_eq!(text.continuous_in(0, 12), "hello, world".as_bytes());
    assert_eq!(text.contents(), "hello, world");
}

#[test]
fn parts_tell_characters_from_tags() {
    assert!(Part::Char('a').is_char());
    assert!(!Part::Char('a').is_tag());
    assert!(Part::MainCursor.is_tag());
    assert_eq!(Part::Char('a').as_char(), Some('a'));
    assert_eq!(Part::Termination.as_char(), None);
    assert_eq!(Part::from_raw(Tag::EndAlignRight), Part::AlignLeft);
    assert_eq!(Part::from_raw(Tag::StartAlignCenter), Part::AlignCenter);
    assert_eq!(Tag::PushForm(FormId { id: 2 }).inverse(), Some(Tag::PopForm(FormId { id: 2 })));
    assert_eq!(Tag::MainCursor.inverse(), None);
    assert_eq!(duat::parts::TextBit::Char('q').as_char(), Some(&'q'));
    assert_eq!(duat::parts::TextBit::Tag(Tag::MainCursor).as_char(), None);
}

#[test]
fn a_text_gives_its_pieces_and_its_characters() {
    let mut text = Text::new("héllo wörld");
    text.replace_range(7, 7, "big ".as_bytes());
    let (before, after) = text.as_slices();
    let mut all = before.to_vec();
    all.extend_from_slice(after);
    assert_eq!(all, "héllo big wörld".as_bytes());
    assert_eq!(text.chars_at(10), vec!['w', 'ö', 'r', 'l', 'd']);
    assert_eq!(text.chars_at(0).len(), 15);
    assert_eq!(text.chars_at(15), vec![]);
    assert_eq!(text.chars_at(99), vec![]);
    let forward = text.parts_in(0, 3);
    let mut backward = text.rev_parts(3);
    backward.reverse();
    assert_eq!(forward, backward);
    let chars: Vec<Part> = text.rev_parts(3).iter().map(|i| i.part).collect();
    assert_eq!(chars, vec![Part::Char('é'), Part::Char('h')]);
    assert_eq!(text.rev_parts(0), vec![]);
}
