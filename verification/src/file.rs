//! The file: a text with its cursors and its history, and the engine that
//! edits and moves on one cursor or on all of them.

use crate::buffer::{spliced, MAX_LEN};
use crate::cfg::PrintCfg;
use crate::cursor::{
    clamp_add, inserted_all, lemma_cursor_count, lemma_inserted_all_same, same_sels,
    spec_at_coords, spec_move_ver, spec_visual_col, Cursor, Cursors,
};
use crate::edit::{edit_fits, Diff, Editor, Mover};
use crate::forms::{cursor_tags, spec_cursor_tags};
use crate::history::{apply_all, redo_carets, undo_all, undo_carets, History};
use crate::position::Pos;
use crate::print_info::PrintInfo;
use crate::tags::{count_upto, removed_on, Marker, Tag, TagEntry};
use crate::text::{char_start_from, point_of, snap_of, Text};
use vstd::prelude::*;
use vstd::utf8::encode_utf8;

verus! {

/// `tags` with one more tag at `offset`, after those at or before it.
pub open spec fn with_tag(tags: Seq<TagEntry>, offset: usize, tag: Tag, marker: Marker) -> Seq<
    TagEntry,
> {
    tags.insert(count_upto(tags, offset), TagEntry { offset, tag, marker })
}

/// `tags` with the tags that show a cursor: the two of its selection, if
/// it is not empty, and the one of its caret.
pub open spec fn with_cursor(tags: Seq<TagEntry>, c: Cursor, is_main: bool, marker: Marker) -> Seq<
    TagEntry,
> {
    let t = spec_cursor_tags(is_main);
    let sel = if c.start_byte() != c.end_byte() {
        with_tag(with_tag(tags, c.start_byte(), t.1, marker), c.end_byte(), t.2, marker)
    } else {
        tags
    };
    with_tag(sel, c.caret.byte, t.0, marker)
}

/// `tags` with the tags that show the cursors of `list`.
pub open spec fn with_cursors(tags: Seq<TagEntry>, list: Seq<Cursor>, main: usize, marker: Marker) -> Seq<
    TagEntry,
>
    decreases list.len(),
{
    if list.len() == 0 {
        tags
    } else {
        with_cursor(
            with_cursors(tags, list.drop_last(), main, marker),
            list.last(),
            list.len() - 1 == main,
            marker,
        )
    }
}

/// `tags` without the tags of `marker` at the ends of the selection of a
/// cursor.
pub open spec fn without_cursor(tags: Seq<TagEntry>, c: Cursor, marker: Marker) -> Seq<TagEntry> {
    let first = if c.start_byte() != c.end_byte() {
        removed_on(tags, c.start_byte(), seq![marker])
    } else {
        tags
    };
    removed_on(first, c.end_byte(), seq![marker])
}

/// `tags` without the tags of `marker` at the ends of the selections of
/// the cursors of `list`.
pub open spec fn without_cursors(tags: Seq<TagEntry>, list: Seq<Cursor>, marker: Marker) -> Seq<
    TagEntry,
>
    decreases list.len(),
{
    if list.len() == 0 {
        tags
    } else {
        without_cursor(without_cursors(tags, list.drop_last(), marker), list.last(), marker)
    }
}

impl Text {
    /// Attaches the tags that show the cursors: for each cursor the tags
    /// that push and pop the form of its selection, if it has one, and
    /// the tag of its caret, all owned by the marker of the text.
    pub fn add_cursor_tags(&mut self, cursors: &Cursors)
        requires
            old(self).wf(),
            cursors.wf_in(old(self).bytes()),
        ensures
            final(self).bytes() == old(self).bytes(),
            final(self).tags@ == with_cursors(
                old(self).tags@,
                cursors.list@,
                cursors.main,
                old(self).marker,
            ),
            final(self).marker == old(self).marker,
            final(self).ghosts == old(self).ghosts,
            final(self).wf(),
    {
        let marker = self.marker;
        let mut i: usize = 0;
        while i < cursors.list.len()
            invariant
                i <= cursors.list@.len(),
                self.wf(),
                cursors.wf_in(self.bytes()),
                self.bytes() == old(self).bytes(),
                self.marker == marker,
                marker == old(self).marker,
                self.ghosts == old(self).ghosts,
                self.tags@ == with_cursors(
                    old(self).tags@,
                    cursors.list@.take(i as int),
                    cursors.main,
                    marker,
                ),
            decreases cursors.list.len() - i,
        {
            let c = cursors.list[i];
            proof {
                assert(cursors.list@.take(i + 1).drop_last() == cursors.list@.take(i as int));
                assert(cursors.list@[i as int].wf_in(self.bytes()));
            }
            let (start, end) = c.range();
            let t = cursor_tags(i == cursors.main);
            if start != end {
                self.insert_tag(start, t.1, marker);
                self.insert_tag(end, t.2, marker);
            }
            self.insert_tag(c.caret.byte, t.0, marker);
            i += 1;
        }
        proof {
            assert(cursors.list@.take(i as int) == cursors.list@);
        }
    }

    /// Removes the tags that show the cursors: the tags of the marker of
    /// the text at the ends of each selection.
    pub fn remove_cursor_tags(&mut self, cursors: &Cursors)
        requires
            old(self).wf(),
        ensures
            final(self).bytes() == old(self).bytes(),
            final(self).tags@ == without_cursors(old(self).tags@, cursors.list@, old(self).marker),
            final(self).marker == old(self).marker,
            final(self).ghosts == old(self).ghosts,
            final(self).wf(),
    {
        let marker = self.marker;
        let mut markers: Vec<Marker> = Vec::new();
        markers.push(marker);
        assert(markers@ == seq![marker]);
        let mut i: usize = 0;
        while i < cursors.list.len()
            invariant
                i <= cursors.list@.len(),
                self.wf(),
                self.bytes() == old(self).bytes(),
                self.marker == marker,
                marker == old(self).marker,
                markers@ == seq![marker],
                self.ghosts == old(self).ghosts,
                self.tags@ == without_cursors(
                    old(self).tags@,
                    cursors.list@.take(i as int),
                    marker,
                ),
            decreases cursors.list.len() - i,
        {
            let c = cursors.list[i];
            proof {
                assert(cursors.list@.take(i + 1).drop_last() == cursors.list@.take(i as int));
            }
            let (start, end) = c.range();
            if start != end {
                self.remove_on(start, &markers);
            }
            self.remove_on(end, &markers);
            i += 1;
        }
        proof {
            assert(cursors.list@.take(i as int) == cursors.list@);
        }
    }
}

/// What an editor does with the selection of its cursor.
#[derive(Clone, Debug)]
pub enum Edit {
    /// Inserts the text at the caret.
    Insert(String),
    /// Replaces the selection by the text.
    Replace(String),
}

/// An edit as specifications see it: the bytes of its text, and whether
/// it replaces the selection or inserts at the caret.
pub struct EditView {
    pub bytes: Seq<u8>,
    pub replace: bool,
}

impl View for Edit {
    type V = EditView;

    open spec fn view(&self) -> EditView {
        match self {
            Edit::Insert(s) => EditView { bytes: encode_utf8(s@), replace: false },
            Edit::Replace(s) => EditView { bytes: encode_utf8(s@), replace: true },
        }
    }
}

impl EditView {
    /// The number of bytes that the edit takes from the selection of `c`.
    pub open spec fn taken(self, c: Cursor) -> int {
        if self.replace {
            c.end_byte() - c.start_byte()
        } else {
            0
        }
    }

    /// The offset at which the edit begins on the cursor `c`.
    pub open spec fn start(self, c: Cursor) -> int {
        if self.replace {
            c.start_byte() as int
        } else {
            c.caret.byte as int
        }
    }

    /// The bytes after the edit was made on the cursor `c`.
    pub open spec fn spec_bytes_after(self, bytes: Seq<u8>, c: Cursor) -> Seq<u8> {
        spliced(bytes, self.start(c), self.start(c) + self.taken(c), self.bytes)
    }

    /// The tags after the edit was made on the cursor `c`.
    pub open spec fn spec_tags_after(self, tags: Seq<TagEntry>, c: Cursor) -> Seq<TagEntry> {
        crate::tags::transformed(
            tags,
            self.start(c),
            self.start(c) + self.taken(c),
            self.start(c) + self.bytes.len(),
        )
    }

    /// Where the caret of `c` stands after the edit, in the bytes that
    /// the edit gave.
    pub open spec fn spec_caret_after(self, bytes: Seq<u8>, c: Cursor) -> Pos {
        point_of(self.spec_bytes_after(bytes, c), self.start(c) + self.bytes.len())
    }

    /// Where the anchor of `c` stands after the edit, if it has one then.
    pub open spec fn spec_anchor_after(self, bytes: Seq<u8>, c: Cursor) -> Option<Pos> {
        let new = self.spec_bytes_after(bytes, c);
        match c.anchor {
            Some(a) => if a.byte > c.caret.byte {
                if self.replace {
                    Some(point_of(new, c.start_byte() as int))
                } else {
                    Some(point_of(new, a.byte + self.bytes.len()))
                }
            } else if self.replace {
                None
            } else {
                Some(a)
            },
            None => None,
        }
    }
}

/// What a mover does with the selection of its cursor.
#[derive(Clone, Copy, Debug, PartialEq, Eq, Structural)]
pub enum Motion {
    /// Moves the caret by so many characters.
    Hor(isize),
    /// Moves the caret by so many lines.
    Ver(isize),
    /// Moves the caret by so many visual lines, in an area so many columns
    /// wide.
    VerWrapped(isize, usize),
    /// Moves the caret to the position nearest to a byte offset.
    To(usize),
    /// Moves the caret to a line and a column.
    ToCoords(usize, usize),
    SetAnchor,
    UnsetAnchor,
    SwapEnds,
    CaretOnStart,
    CaretOnEnd,
}

/// The cursor `c` after a motion.
pub open spec fn spec_moved(c: Cursor, m: Motion, text: Text, cfg: PrintCfg) -> Cursor {
    let bytes = text.bytes();
    match m {
        Motion::Hor(n) => {
            let caret = point_of(
                bytes,
                char_start_from(
                    bytes,
                    0,
                    clamp_add(c.caret.ch, n, text.spec_len_chars() as usize) as nat,
                ),
            );
            Cursor { caret, desired_x: spec_visual_col(text, caret.byte as int, cfg), ..c }
        },
        Motion::Ver(n) => Cursor { caret: spec_move_ver(c, n, text, cfg), ..c },
        Motion::VerWrapped(n, width) => Cursor {
            caret: point_of(
                bytes,
                snap_of(bytes, crate::cursor::spec_wrapped_target(c, n, text, cfg, width) as int),
            ),
            ..c
        },
        Motion::To(b) => {
            let caret = point_of(bytes, snap_of(bytes, b as int));
            Cursor { caret, desired_x: spec_visual_col(text, caret.byte as int, cfg), ..c }
        },
        Motion::ToCoords(line, col) => {
            let caret = spec_at_coords(line, col, text);
            Cursor { caret, desired_x: spec_visual_col(text, caret.byte as int, cfg), ..c }
        },
        Motion::SetAnchor => Cursor { anchor: Some(c.caret), ..c },
        Motion::UnsetAnchor => Cursor { anchor: None, ..c },
        Motion::SwapEnds => match c.anchor {
            Some(a) => Cursor { caret: a, anchor: Some(c.caret), ..c },
            None => c,
        },
        Motion::CaretOnStart => match c.anchor {
            Some(a) => if c.caret.byte > a.byte {
                Cursor { caret: a, anchor: Some(c.caret), ..c }
            } else {
                c
            },
            None => c,
        },
        Motion::CaretOnEnd => match c.anchor {
            Some(a) => if a.byte > c.caret.byte {
                Cursor { caret: a, anchor: Some(c.caret), ..c }
            } else {
                c
            },
            None => c,
        },
    }
}

/// Makes a motion with a mover.
pub fn apply_motion(mover: &mut Mover, m: &Motion, text: &Text, cfg: &PrintCfg)
    requires
        text.wf(),
        old(mover).cursor.wf_in(text.bytes()),
    ensures
        final(mover).cursor == spec_moved(old(mover).cursor, *m, *text, *cfg),
        final(mover).cursor.wf_in(text.bytes()),
{
    match m {
        Motion::Hor(n) => mover.cursor.move_hor(*n, text, cfg),
        Motion::Ver(n) => mover.cursor.move_ver(*n, text, cfg),
        Motion::VerWrapped(n, width) => mover.cursor.move_ver_wrapped(*n, text, cfg, *width),
        Motion::To(b) => mover.cursor.move_to(*b, text, cfg),
        Motion::ToCoords(line, col) => mover.cursor.move_to_coords(*line, *col, text, cfg),
        Motion::SetAnchor => mover.set_anchor(),
        Motion::UnsetAnchor => {
            mover.unset_anchor();
        },
        Motion::SwapEnds => mover.swap_ends(),
        Motion::CaretOnStart => mover.set_caret_on_start(),
        Motion::CaretOnEnd => mover.set_caret_on_end(),
    }
}

/// Makes an edit with an editor.
pub fn apply_edit(
    editor: &mut Editor,
    e: &Edit,
    text: &mut Text,
    history: &mut History,
    diff: &mut Diff,
    cfg: &PrintCfg,
)
    requires
        old(text).wf(),
        old(history).tracks(old(text).bytes()),
        old(editor).cursor.wf_in(old(text).bytes()),
        edit_fits(
            old(text).bytes().len(),
            e@.taken(old(editor).cursor),
            e@.bytes.len(),
            *old(diff),
        ),
    ensures
        final(text).bytes() == e@.spec_bytes_after(old(text).bytes(), old(editor).cursor),
        final(text).tags@ == e@.spec_tags_after(old(text).tags@, old(editor).cursor),
        final(editor).cursor.assoc_index is Some,
        final(text).wf(),
        final(text).marker == old(text).marker,
        final(text).ghosts == old(text).ghosts,
        final(history).tracks(final(text).bytes()),
        final(editor).cursor.caret == e@.spec_caret_after(old(text).bytes(), old(editor).cursor),
        final(editor).cursor.anchor == e@.spec_anchor_after(old(text).bytes(), old(editor).cursor),
        final(editor).cursor.wf_in(final(text).bytes()),
        final(diff).bytes == old(diff).bytes + e@.bytes.len() - e@.taken(old(editor).cursor),
        old(diff).changes <= final(diff).changes <= old(diff).changes + 1,
{
    match e {
        Edit::Insert(s) => editor.insert(s.as_str(), text, history, diff, cfg),
        Edit::Replace(s) => editor.replace(s.as_str(), text, history, diff, cfg),
    }
}

/// The outcome of a batch of edits: the bytes and the tags of the text,
/// and the cursors, each as it stood when its own turn was over.
pub struct Batch {
    pub bytes: Seq<u8>,
    pub tags: Seq<TagEntry>,
    pub cursors: Seq<Cursor>,
}

/// A batch of edits on the cursors `lo..hi` of `list`, from the cursor
/// `k` on, where the edits before have added `d` bytes: each cursor first
/// shifts by what was added before it, and then, if its index lies within
/// `lo..hi`, the edit is made on it.
pub open spec fn edit_batch(
    bytes: Seq<u8>,
    tags: Seq<TagEntry>,
    list: Seq<Cursor>,
    k: int,
    lo: int,
    hi: int,
    d: isize,
    e: EditView,
) -> Batch
    decreases list.len() - k,
{
    if k < 0 || k >= list.len() {
        Batch { bytes, tags, cursors: Seq::empty() }
    } else {
        let c = (Diff { bytes: d, changes: 0 }).spec_shifted(list[k], bytes);
        if lo <= k < hi {
            let rest = edit_batch(
                e.spec_bytes_after(bytes, c),
                e.spec_tags_after(tags, c),
                list,
                k + 1,
                lo,
                hi,
                (d + e.bytes.len() - e.taken(c)) as isize,
                e,
            );
            Batch {
                bytes: rest.bytes,
                tags: rest.tags,
                cursors: seq![
                    Cursor {
                        caret: e.spec_caret_after(bytes, c),
                        anchor: e.spec_anchor_after(bytes, c),
                        ..c
                    },
                ] + rest.cursors,
            }
        } else {
            let rest = edit_batch(bytes, tags, list, k + 1, lo, hi, d, e);
            Batch { bytes: rest.bytes, tags: rest.tags, cursors: seq![c] + rest.cursors }
        }
    }
}

/// The cursors of `cs`, each at the positions of `bytes` nearest to its
/// own and with the word whether its index is `main`.
pub open spec fn settled(cs: Seq<Cursor>, bytes: Seq<u8>, main: usize) -> Seq<(Cursor, bool)> {
    Seq::new(
        cs.len(),
        |i: int| ((Diff { bytes: 0, changes: 0 }).spec_shifted(cs[i], bytes), i == main),
    )
}

/// The cursors of `list`, each after the motion `m` and with the word
/// whether its index is `main`.
pub open spec fn all_moved(list: Seq<Cursor>, main: usize, m: Motion, text: Text, cfg: PrintCfg) -> Seq<
    (Cursor, bool),
> {
    Seq::new(list.len(), |i: int| (spec_moved(list[i], m, text, cfg), i == main))
}

/// The cursors of `list`, the one of index `n` after the motion `m`, each
/// with the word whether its index is `main`.
pub open spec fn nth_moved(
    list: Seq<Cursor>,
    main: usize,
    n: int,
    m: Motion,
    text: Text,
    cfg: PrintCfg,
) -> Seq<(Cursor, bool)> {
    Seq::new(
        list.len(),
        |i: int|
            (
                if i == n {
                    spec_moved(list[i], m, text, cfg)
                } else {
                    list[i]
                },
                i == main,
            ),
    )
}

/// Cursors without a selection at the positions of `bytes` nearest to
/// the offsets of `carets`, the last of them the main one.
pub open spec fn cursors_at(carets: Seq<int>, bytes: Seq<u8>) -> Seq<(Cursor, bool)> {
    Seq::new(
        carets.len(),
        |i: int|
            (
                Cursor {
                    caret: point_of(bytes, snap_of(bytes, carets[i])),
                    anchor: None,
                    assoc_index: None,
                    desired_x: 0,
                },
                i == carets.len() - 1,
            ),
    )
}

/// The number of cursors from `k` on that a batch on the cursors `lo..hi`
/// has yet to edit.
pub open spec fn edits_left(k: int, lo: int, hi: int) -> int {
    if k >= hi {
        0
    } else if k <= lo {
        hi - lo
    } else {
        hi - k
    }
}

/// A file: a text, the cursors on it, the history of its changes, the
/// scroll state of its view, and the configuration of its printing.
pub struct File {
    pub text: Text,
    pub cursors: Cursors,
    pub history: History,
    pub print_info: PrintInfo,
    pub cfg: PrintCfg,
}

impl File {
    /// Whether the text is well formed, the history is that of the text,
    /// and the cursors stand apart at positions of the text.
    pub open spec fn wf(&self) -> bool {
        &&& self.text.wf()
        &&& self.history.tracks(self.text.bytes())
        &&& self.cursors.wf_in(self.text.bytes())
    }

    /// The tags of the text without those that show the cursors.
    pub open spec fn plain_tags(&self) -> Seq<TagEntry> {
        without_cursors(self.text.tags@, self.cursors.list@, self.text.marker)
    }

    /// The file of a text, with one cursor at its start and no history.
    pub fn new(content: &str, cfg: PrintCfg) -> (r: File)
        requires
            encode_utf8(content@).len() <= MAX_LEN,
        ensures
            r.text.bytes() == encode_utf8(content@),
            r.text.tags@ == with_cursors(Seq::empty(), r.cursors.list@, 0, Marker { id: 0 }),
            r.cursors.list@ == seq![
                Cursor {
                    caret: Pos { byte: 0, ch: 0, col: 0, row: 0 },
                    anchor: None,
                    assoc_index: None,
                    desired_x: 0,
                },
            ],
            r.cursors.main == 0,
            r.history.bounds@.len() == 0,
            r.print_info == (PrintInfo {
                first_char: 0,
                x_shift: 0,
                last_main: Pos { byte: 0, ch: 0, col: 0, row: 0 },
            }),
            r.cfg == cfg,
            r.wf(),
    {
        let mut text = Text::new(content);
        let cursors = Cursors::new();
        proof {
            crate::buffer::lemma_valid_starts_with_start(text.bytes());
            assert(cursors.list@[0].wf_in(text.bytes()));
            assert(text.tags@ =~= Seq::<TagEntry>::empty());
        }
        text.add_cursor_tags(&cursors);
        let history = History::new();
        proof {
            assert(history.changes@.take(0).len() == 0);
            assert(history.changes@.skip(0).len() == 0);
        }
        File { text, cursors, history, print_info: PrintInfo::default(), cfg }
    }

    /// The scroll state of the view.
    pub fn print_info(&self) -> (r: PrintInfo)
        ensures
            r == self.print_info,
    {
        self.print_info
    }

    /// Follows the main cursor with the view, in an area of `width`
    /// columns and `height` lines. Nothing changes where there is no
    /// cursor.
    pub fn update_print_info(&mut self, width: usize, height: usize)
        requires
            old(self).wf(),
            old(self).print_info.x_shift + old(self).cfg.scrolloff.x_gap <= usize::MAX,
            old(self).print_info.x_shift + width <= usize::MAX,
            old(self).cfg.scrolloff.y_gap < usize::MAX,
        ensures
            final(self).text == old(self).text,
            final(self).cursors == old(self).cursors,
            final(self).history == old(self).history,
            final(self).cfg == old(self).cfg,
            final(self).print_info == if old(self).cursors.main < old(self).cursors.list@.len() {
                old(self).print_info.spec_update(
                    old(self).cursors.list@[old(self).cursors.main as int].caret,
                    old(self).text,
                    old(self).cfg,
                    width,
                    height,
                )
            } else {
                old(self).print_info
            },
    {
        if let Some(c) = self.cursors.get_main() {
            proof {
                assert(self.cursors.list@[self.cursors.main as int].wf_in(self.text.bytes()));
            }
            self.print_info.update(c.caret, &self.text, &self.cfg, width, height);
        }
    }

    /// Begins a new moment of the history.
    pub fn new_moment(&mut self)
        requires
            old(self).wf(),
        ensures
            final(self).wf(),
            final(self).text == old(self).text,
            final(self).cursors == old(self).cursors,
            final(self).print_info == old(self).print_info,
            final(self).cfg == old(self).cfg,
            final(self).history.applied == old(self).history.applied + 1,
            final(self).history.changes@ == old(self).history.changes@.take(
                old(self).history.applied_changes(),
            ),
    {
        self.history.new_moment();
    }

    /// Moves on the cursors `lo..hi`: takes all cursors out, makes the
    /// motion with each of those, and puts all of them in again, as one
    /// where their selections meet.
    fn move_range(&mut self, lo: usize, hi: usize, m: &Motion)
        requires
            old(self).wf(),
        ensures
            final(self).wf(),
            final(self).text.bytes() == old(self).text.bytes(),
            final(self).text.marker == old(self).text.marker,
            final(self).text.ghosts == old(self).text.ghosts,
            final(self).history == old(self).history,
            final(self).print_info == old(self).print_info,
            final(self).cfg == old(self).cfg,
            (final(self).cursors.list@, final(self).cursors.main) == inserted_all(
                Seq::empty(),
                0,
                Seq::new(
                    old(self).cursors.list@.len(),
                    |i: int|
                        (
                            if lo <= i < hi {
                                spec_moved(
                                    old(self).cursors.list@[i],
                                    *m,
                                    old(self).text,
                                    old(self).cfg,
                                )
                            } else {
                                old(self).cursors.list@[i]
                            },
                            i == old(self).cursors.main,
                        ),
                ),
            ),
            final(self).text.tags@ == with_cursors(
                old(self).plain_tags(),
                final(self).cursors.list@,
                final(self).cursors.main,
                old(self).text.marker,
            ),
    {
        let ghost list = self.cursors.list@;
        let ghost main = self.cursors.main;
        let ghost cs = Seq::new(
            list.len(),
            |i: int|
                (
                    if lo <= i < hi {
                        spec_moved(list[i], *m, old(self).text, old(self).cfg)
                    } else {
                        list[i]
                    },
                    i == main,
                ),
        );
        let n = self.cursors.list.len();
        let mut moved: Vec<(Cursor, bool)> = Vec::new();
        let mut k: usize = 0;
        while k < n
            invariant
                k <= n == list.len(),
                *self == *old(self),
                self.wf(),
                list == self.cursors.list@,
                main == self.cursors.main,
                cs == Seq::new(
                    list.len(),
                    |i: int|
                        (
                            if lo <= i < hi {
                                spec_moved(list[i], *m, old(self).text, old(self).cfg)
                            } else {
                                list[i]
                            },
                            i == main,
                        ),
                ),
                moved@ == cs.take(k as int),
                forall|i: int| 0 <= i < k ==> (#[trigger] moved@[i]).0.wf_in(self.text.bytes()),
            decreases n - k,
        {
            let c = self.cursors.list[k];
            proof {
                assert(list[k as int].wf_in(self.text.bytes()));
            }
            let mut mover = Mover::new(c);
            if lo <= k && k < hi {
                apply_motion(&mut mover, m, &self.text, &self.cfg);
            }
            let ghost before = moved@;
            moved.push((mover.finish(), k == self.cursors.main));
            proof {
                assert(cs[k as int] == moved@[k as int]);
                assert(cs.take(k + 1) =~= cs.take(k as int).push(cs[k as int]));
                assert forall|i: int| 0 <= i < k + 1 implies (#[trigger] moved@[i]).0.wf_in(
                    self.text.bytes(),
                ) by {
                    if i < k {
                        assert(moved@[i] == before[i]);
                    }
                }
            }
            k += 1;
        }
        proof {
            assert(cs.take(n as int) == cs);
            assert(cs.len() == n);
        }
        self.text.remove_cursor_tags(&self.cursors);
        self.cursors.drain();
        let mut j: usize = 0;
        proof {
            assert(cs.take(0).len() == 0);
        }
        while j < n
            invariant
                j <= n == moved@.len(),
                moved@ == cs,
                cs.len() == n,
                forall|i: int| 0 <= i < n ==> (#[trigger] moved@[i]).0.wf_in(self.text.bytes()),
                self.text.wf(),
                self.text.bytes() == old(self).text.bytes(),
                self.text.marker == old(self).text.marker,
                self.text.ghosts == old(self).text.ghosts,
                self.text.tags@ == old(self).plain_tags(),
                self.history == old(self).history,
                self.print_info == old(self).print_info,
                self.cfg == old(self).cfg,
                self.cursors.wf_in(self.text.bytes()),
                (self.cursors.list@, self.cursors.main) == inserted_all(
                    Seq::empty(),
                    0,
                    cs.take(j as int),
                ),
            decreases n - j,
        {
            let (c, was_main) = moved[j];
            proof {
                assert(moved@[j as int].0.wf_in(self.text.bytes()));
                assert(cs.take(j + 1).drop_last() == cs.take(j as int));
            }
            self.cursors.insert_removed(was_main, c);
            j += 1;
        }
        proof {
            assert(cs.take(n as int) == cs);
        }
        self.text.add_cursor_tags(&self.cursors);
    }

    /// Makes a motion with the cursor of index `n`. If its selection then
    /// meets that of another cursor, the two become one.
    pub fn move_nth(&mut self, m: &Motion, n: usize)
        requires
            old(self).wf(),
            n < old(self).cursors.list@.len(),
        ensures
            final(self).wf(),
            final(self).text.bytes() == old(self).text.bytes(),
            final(self).history == old(self).history,
            final(self).print_info == old(self).print_info,
            final(self).cfg == old(self).cfg,
            (final(self).cursors.list@, final(self).cursors.main) == inserted_all(
                Seq::empty(),
                0,
                nth_moved(
                    old(self).cursors.list@,
                    old(self).cursors.main,
                    n as int,
                    *m,
                    old(self).text,
                    old(self).cfg,
                ),
            ),
            final(self).text.tags@ == with_cursors(
                old(self).plain_tags(),
                final(self).cursors.list@,
                final(self).cursors.main,
                old(self).text.marker,
            ),
    {
        let len = self.cursors.len();
        self.move_range(n, n + 1, m);
        proof {
            let list = old(self).cursors.list@;
            assert(nth_moved(
                list,
                old(self).cursors.main,
                n as int,
                *m,
                old(self).text,
                old(self).cfg,
            ) =~= Seq::new(
                list.len(),
                |i: int|
                    (
                        if n <= i < n + 1 {
                            spec_moved(list[i], *m, old(self).text, old(self).cfg)
                        } else {
                            list[i]
                        },
                        i == old(self).cursors.main,
                    ),
            ));
        }
    }

    /// Makes a motion with the main cursor.
    pub fn move_main(&mut self, m: &Motion)
        requires
            old(self).wf(),
            old(self).cursors.list@.len() > 0,
        ensures
            final(self).wf(),
            final(self).text.bytes() == old(self).text.bytes(),
            final(self).history == old(self).history,
            final(self).print_info == old(self).print_info,
            final(self).cfg == old(self).cfg,
            (final(self).cursors.list@, final(self).cursors.main) == inserted_all(
                Seq::empty(),
                0,
                nth_moved(
                    old(self).cursors.list@,
                    old(self).cursors.main,
                    old(self).cursors.main as int,
                    *m,
                    old(self).text,
                    old(self).cfg,
                ),
            ),
            final(self).text.tags@ == with_cursors(
                old(self).plain_tags(),
                final(self).cursors.list@,
                final(self).cursors.main,
                old(self).text.marker,
            ),
    {
        let n = self.cursors.main_index();
        self.move_nth(m, n);
    }

    /// Makes a motion with each cursor. Cursors whose selections then
    /// meet become one, so that afterwards all selections are apart.
    pub fn move_each(&mut self, m: &Motion)
        requires
            old(self).wf(),
        ensures
            final(self).wf(),
            final(self).text.bytes() == old(self).text.bytes(),
            final(self).history == old(self).history,
            final(self).print_info == old(self).print_info,
            final(self).cfg == old(self).cfg,
            (final(self).cursors.list@, final(self).cursors.main) == inserted_all(
                Seq::empty(),
                0,
                all_moved(
                    old(self).cursors.list@,
                    old(self).cursors.main,
                    *m,
                    old(self).text,
                    old(self).cfg,
                ),
            ),
            final(self).text.tags@ == with_cursors(
                old(self).plain_tags(),
                final(self).cursors.list@,
                final(self).cursors.main,
                old(self).text.marker,
            ),
    {
        let n = self.cursors.len();
        self.move_range(0, n, m);
        proof {
            let list = old(self).cursors.list@;
            assert(all_moved(list, old(self).cursors.main, *m, old(self).text, old(self).cfg)
                =~= Seq::new(
                list.len(),
                |i: int|
                    (
                        if 0 <= i < n {
                            spec_moved(list[i], *m, old(self).text, old(self).cfg)
                        } else {
                            list[i]
                        },
                        i == old(self).cursors.main,
                    ),
            ));
        }
    }
}

impl File {
    /// Edits on the cursors `lo..hi`: takes all cursors out; each one
    /// shifts by what the edits before it added, and the edit is made on
    /// those of `lo..hi`; then all are put in again at the positions of
    /// the new text, as one where their selections meet.
    fn edit_range(&mut self, lo: usize, hi: usize, e: &Edit)
        requires
            old(self).wf(),
            lo <= hi <= old(self).cursors.list@.len(),
            old(self).text.bytes().len() + (hi - lo) * e@.bytes.len() <= MAX_LEN,
        ensures
            final(self).wf(),
            final(self).text.marker == old(self).text.marker,
            final(self).text.ghosts == old(self).text.ghosts,
            final(self).print_info == old(self).print_info,
            final(self).cfg == old(self).cfg,
            ({
                let b = edit_batch(
                    old(self).text.bytes(),
                    old(self).plain_tags(),
                    old(self).cursors.list@,
                    0,
                    lo as int,
                    hi as int,
                    0,
                    e@,
                );
                let cs = inserted_all(
                    Seq::empty(),
                    0,
                    settled(b.cursors, b.bytes, old(self).cursors.main),
                );
                &&& final(self).text.bytes() == b.bytes
                &&& final(self).text.tags@ == with_cursors(
                    b.tags,
                    final(self).cursors.list@,
                    final(self).cursors.main,
                    old(self).text.marker,
                )
                &&& same_sels(final(self).cursors.list@, cs.0)
                &&& final(self).cursors.main == cs.1
            }),
    {
        let ghost list = self.cursors.list@;
        let ghost main = self.cursors.main;
        let ghost b0 = self.text.bytes();
        let ghost t0 = self.plain_tags();
        let ghost elen = e@.bytes.len() as int;
        let n = self.cursors.list.len();
        proof {
            assert forall|i: int| 0 <= i < list.len() implies (#[trigger] list[i]).start_byte()
                <= b0.len() by {
                assert(list[i].wf_in(b0));
            }
            lemma_cursor_count(list, b0.len() as int);
        }
        self.text.remove_cursor_tags(&self.cursors);
        let removed = self.cursors.drain();
        let ghost total = edit_batch(b0, t0, list, 0, lo as int, hi as int, 0, e@);
        let mut diff = Diff::default();
        let mut done: Vec<(Cursor, bool)> = Vec::new();
        let ghost mut spec_done: Seq<Cursor> = Seq::empty();
        let mut k: usize = 0;
        while k < n
            invariant
                k <= n == list.len() == removed@.len(),
                n <= MAX_LEN + 1,
                lo <= hi <= n,
                elen == e@.bytes.len(),
                forall|i: int| 0 <= i < n ==> #[trigger] removed@[i] == (list[i], i == main),
                total == edit_batch(b0, t0, list, 0, lo as int, hi as int, 0, e@),
                ({
                    let cur = edit_batch(
                        self.text.bytes(),
                        self.text.tags@,
                        list,
                        k as int,
                        lo as int,
                        hi as int,
                        diff.bytes,
                        e@,
                    );
                    &&& cur.bytes == total.bytes
                    &&& cur.tags == total.tags
                    &&& total.cursors == spec_done + cur.cursors
                }),
                done@.len() == k,
                spec_done.len() == k,
                forall|i: int|
                    0 <= i < k ==> crate::cursor::same_sel((#[trigger] done@[i]).0, spec_done[i])
                        && done@[i].1 == (i == main),
                self.text.wf(),
                self.history.tracks(self.text.bytes()),
                self.text.marker == old(self).text.marker,
                self.text.ghosts == old(self).text.ghosts,
                self.print_info == old(self).print_info,
                self.cfg == old(self).cfg,
                self.cursors.list@.len() == 0,
                self.cursors.main == 0,
                b0.len() <= MAX_LEN,
                diff.bytes == self.text.bytes().len() - b0.len(),
                0 <= diff.changes <= k,
                self.text.bytes().len() + edits_left(k as int, lo as int, hi as int) * elen
                    <= MAX_LEN,
            decreases n - k,
        {
            let (mut c, was_main) = removed[k];
            let ghost bytes = self.text.bytes();
            let ghost tags = self.text.tags@;
            let ghost d = diff.bytes;
            diff.shift_cursor(&mut c, &self.text);
            let ghost shifted = c;
            if lo <= k && k < hi {
                proof {
                    let r = edits_left(k as int, lo as int, hi as int);
                    assert(r >= 1);
                    assert(edits_left(k + 1, lo as int, hi as int) == r - 1);
                    assert(r * elen == (r - 1) * elen + elen) by (nonlinear_arith);
                    assert((r - 1) * elen >= 0) by (nonlinear_arith)
                        requires
                            r >= 1,
                            elen >= 0,
                    ;
                    assert(shifted.end_byte() <= bytes.len());
                }
                let mut ed = Editor::new(c);
                apply_edit(&mut ed, e, &mut self.text, &mut self.history, &mut diff, &self.cfg);
                c = ed.finish();
            } else {
                proof {
                    assert(edits_left(k + 1, lo as int, hi as int) == edits_left(
                        k as int,
                        lo as int,
                        hi as int,
                    ));
                }
            }
            done.push((c, was_main));
            proof {
                let cur = edit_batch(bytes, tags, list, k as int, lo as int, hi as int, d, e@);
                let next = edit_batch(
                    self.text.bytes(),
                    self.text.tags@,
                    list,
                    k + 1,
                    lo as int,
                    hi as int,
                    diff.bytes,
                    e@,
                );
                let sc = if lo <= k < hi {
                    Cursor {
                        caret: e@.spec_caret_after(bytes, shifted),
                        anchor: e@.spec_anchor_after(bytes, shifted),
                        ..shifted
                    }
                } else {
                    shifted
                };
                assert(cur.cursors == seq![sc] + next.cursors);
                assert(spec_done + (seq![sc] + next.cursors) =~= spec_done.push(sc)
                    + next.cursors);
                spec_done = spec_done.push(sc);
            }
            k += 1;
        }
        let ghost fb = self.text.bytes();
        let ghost exec_cs = Seq::new(
            n as nat,
            |i: int| ((Diff { bytes: 0, changes: 0 }).spec_shifted(done@[i].0, fb), done@[i].1),
        );
        proof {
            assert(total.cursors =~= spec_done);
        }
        let zero = Diff::default();
        let mut j: usize = 0;
        proof {
            assert(exec_cs.take(0).len() == 0);
        }
        while j < n
            invariant
                j <= n == done@.len(),
                zero == (Diff { bytes: 0, changes: 0 }),
                fb == self.text.bytes(),
                exec_cs == Seq::new(
                    n as nat,
                    |i: int|
                        ((Diff { bytes: 0, changes: 0 }).spec_shifted(done@[i].0, fb), done@[i].1),
                ),
                self.text.wf(),
                self.text.tags@ == total.tags,
                self.history.tracks(self.text.bytes()),
                self.text.marker == old(self).text.marker,
                self.text.ghosts == old(self).text.ghosts,
                self.print_info == old(self).print_info,
                self.cfg == old(self).cfg,
                self.cursors.wf_in(fb),
                (self.cursors.list@, self.cursors.main) == inserted_all(
                    Seq::empty(),
                    0,
                    exec_cs.take(j as int),
                ),
            decreases n - j,
        {
            let (mut c, was_main) = done[j];
            zero.shift_cursor(&mut c, &self.text);
            proof {
                assert(exec_cs.take(j + 1).drop_last() == exec_cs.take(j as int));
                assert(exec_cs[j as int] == (c, was_main));
            }
            self.cursors.insert_removed(was_main, c);
            j += 1;
        }
        proof {
            assert(exec_cs.take(n as int) == exec_cs);
            let spec_cs = settled(total.cursors, fb, main);
            assert forall|i: int| 0 <= i < exec_cs.len() implies crate::cursor::same_sel(
                (#[trigger] exec_cs[i]).0,
                spec_cs[i].0,
            ) && exec_cs[i].1 == spec_cs[i].1 by {
                assert(crate::cursor::same_sel(done@[i].0, spec_done[i]));
            }
            lemma_inserted_all_same(Seq::empty(), Seq::empty(), 0, exec_cs, spec_cs);
        }
        self.text.add_cursor_tags(&self.cursors);
    }

    /// Makes an edit on the cursor of index `n`. The cursors after it
    /// shift by what the edit added.
    pub fn edit_on_nth(&mut self, e: &Edit, n: usize)
        requires
            old(self).wf(),
            n < old(self).cursors.list@.len(),
            old(self).text.bytes().len() + e@.bytes.len() <= MAX_LEN,
        ensures
            final(self).wf(),
            final(self).print_info == old(self).print_info,
            final(self).cfg == old(self).cfg,
            ({
                let b = edit_batch(
                    old(self).text.bytes(),
                    old(self).plain_tags(),
                    old(self).cursors.list@,
                    0,
                    n as int,
                    n + 1,
                    0,
                    e@,
                );
                let cs = inserted_all(
                    Seq::empty(),
                    0,
                    settled(b.cursors, b.bytes, old(self).cursors.main),
                );
                &&& final(self).text.bytes() == b.bytes
                &&& final(self).text.tags@ == with_cursors(
                    b.tags,
                    final(self).cursors.list@,
                    final(self).cursors.main,
                    old(self).text.marker,
                )
                &&& same_sels(final(self).cursors.list@, cs.0)
                &&& final(self).cursors.main == cs.1
            }),
    {
        let len = self.cursors.len();
        assert(1 * e@.bytes.len() == e@.bytes.len());
        self.edit_range(n, n + 1, e);
    }

    /// Makes an edit on the main cursor.
    pub fn edit_on_main(&mut self, e: &Edit)
        requires
            old(self).wf(),
            old(self).cursors.list@.len() > 0,
            old(self).text.bytes().len() + e@.bytes.len() <= MAX_LEN,
        ensures
            final(self).wf(),
            final(self).print_info == old(self).print_info,
            final(self).cfg == old(self).cfg,
            ({
                let b = edit_batch(
                    old(self).text.bytes(),
                    old(self).plain_tags(),
                    old(self).cursors.list@,
                    0,
                    old(self).cursors.main as int,
                    old(self).cursors.main + 1,
                    0,
                    e@,
                );
                let cs = inserted_all(
                    Seq::empty(),
                    0,
                    settled(b.cursors, b.bytes, old(self).cursors.main),
                );
                &&& final(self).text.bytes() == b.bytes
                &&& final(self).text.tags@ == with_cursors(
                    b.tags,
                    final(self).cursors.list@,
                    final(self).cursors.main,
                    old(self).text.marker,
                )
                &&& same_sels(final(self).cursors.list@, cs.0)
                &&& final(self).cursors.main == cs.1
            }),
    {
        let n = self.cursors.main_index();
        self.edit_on_nth(e, n);
    }

    /// Makes an edit on each cursor, in their order. Each cursor first
    /// shifts by what the edits before it added. Afterwards all
    /// selections are apart.
    pub fn edit_on_each(&mut self, e: &Edit)
        requires
            old(self).wf(),
            old(self).text.bytes().len() + old(self).cursors.list@.len() * e@.bytes.len()
                <= MAX_LEN,
        ensures
            final(self).wf(),
            final(self).print_info == old(self).print_info,
            final(self).cfg == old(self).cfg,
            ({
                let b = edit_batch(
                    old(self).text.bytes(),
                    old(self).plain_tags(),
                    old(self).cursors.list@,
                    0,
                    0,
                    old(self).cursors.list@.len() as int,
                    0,
                    e@,
                );
                let cs = inserted_all(
                    Seq::empty(),
                    0,
                    settled(b.cursors, b.bytes, old(self).cursors.main),
                );
                &&& final(self).text.bytes() == b.bytes
                &&& final(self).text.tags@ == with_cursors(
                    b.tags,
                    final(self).cursors.list@,
                    final(self).cursors.main,
                    old(self).text.marker,
                )
                &&& same_sels(final(self).cursors.list@, cs.0)
                &&& final(self).cursors.main == cs.1
            }),
    {
        let n = self.cursors.len();
        self.edit_range(0, n, e);
    }

    /// Puts the cursors at the given offsets, one cursor without a
    /// selection for each, the last of them the main one.
    fn place_cursors(&mut self, carets: &Vec<usize>)
        requires
            old(self).text.wf(),
            old(self).history.tracks(old(self).text.bytes()),
            carets@.len() > 0,
        ensures
            final(self).wf(),
            final(self).text.bytes() == old(self).text.bytes(),
            final(self).text.marker == old(self).text.marker,
            final(self).text.ghosts == old(self).text.ghosts,
            final(self).history == old(self).history,
            final(self).print_info == old(self).print_info,
            final(self).cfg == old(self).cfg,
            same_sels(
                final(self).cursors.list@,
                inserted_all(
                    Seq::empty(),
                    0,
                    cursors_at(carets@.map_values(|p: usize| p as int), old(self).text.bytes()),
                ).0,
            ),
            final(self).cursors.main == inserted_all(
                Seq::empty(),
                0,
                cursors_at(carets@.map_values(|p: usize| p as int), old(self).text.bytes()),
            ).1,
            final(self).text.tags@ == with_cursors(
                old(self).text.tags@,
                final(self).cursors.list@,
                final(self).cursors.main,
                old(self).text.marker,
            ),
    {
        let ghost fb = self.text.bytes();
        let n = carets.len();
        self.cursors.drain();
        let mut made: Vec<(Cursor, bool)> = Vec::new();
        let mut j: usize = 0;
        while j < n
            invariant
                j <= n == carets@.len(),
                fb == self.text.bytes(),
                self.text == old(self).text,
                self.text.wf(),
                self.history == old(self).history,
                self.print_info == old(self).print_info,
                self.cfg == old(self).cfg,
                self.cursors.wf_in(fb),
                made@.len() == j,
                forall|i: int|
                    0 <= i < j ==> (#[trigger] made@[i]).0.caret == point_of(
                        fb,
                        snap_of(fb, carets@[i] as int),
                    ) && made@[i].0.anchor is None && made@[i].1 == (i == n - 1),
                (self.cursors.list@, self.cursors.main) == inserted_all(Seq::empty(), 0, made@),
            decreases n - j,
        {
            let c = Cursor::new(carets[j], &self.text, &self.cfg);
            let ghost before = made@;
            made.push((c, j == n - 1));
            proof {
                assert(made@.drop_last() == before);
            }
            self.cursors.insert_removed(j == n - 1, c);
            j += 1;
        }
        proof {
            let spec_cs = cursors_at(carets@.map_values(|p: usize| p as int), fb);
            assert forall|i: int| 0 <= i < made@.len() implies crate::cursor::same_sel(
                (#[trigger] made@[i]).0,
                spec_cs[i].0,
            ) && made@[i].1 == spec_cs[i].1 by {}
            lemma_inserted_all_same(Seq::empty(), Seq::empty(), 0, made@, spec_cs);
        }
        self.text.add_cursor_tags(&self.cursors);
    }

    /// Undoes the latest moment: its changes are taken back from the
    /// text, the last one first, and one cursor is put at the end of what
    /// each change had taken. Returns whether there was a moment to undo.
    pub fn undo(&mut self) -> (r: bool)
        requires
            old(self).wf(),
        ensures
            final(self).wf(),
            r == (old(self).history.applied > 0),
            final(self).print_info == old(self).print_info,
            final(self).cfg == old(self).cfg,
            final(self).history.changes == old(self).history.changes,
            final(self).history.bounds == old(self).history.bounds,
            !r ==> final(self).text.bytes() == old(self).text.bytes() && final(self).history
                == old(self).history && final(self).cursors == old(self).cursors,
            r ==> {
                let m = old(self).history.moment_changes(old(self).history.applied - 1);
                let cs = inserted_all(
                    Seq::empty(),
                    0,
                    cursors_at(undo_carets(m), final(self).text.bytes()),
                );
                &&& final(self).history.applied == old(self).history.applied - 1
                &&& final(self).text.bytes() == undo_all(old(self).text.bytes(), m)
                &&& m.len() > 0 ==> same_sels(final(self).cursors.list@, cs.0) && final(self).cursors.main == cs.1
                &&& m.len() == 0 ==> final(self).cursors == old(self).cursors
            },
    {
        self.text.remove_cursor_tags(&self.cursors);
        let r = self.history.undo(&mut self.text);
        match r {
            Some(carets) => {
                if carets.len() > 0 {
                    self.place_cursors(&carets);
                } else {
                    proof {
                        let m = old(self).history.moment_changes(old(self).history.applied - 1);
                        assert(undo_carets(m).len() == carets@.map_values(|p: usize| p as int).len());
                        assert(m.len() == 0) by {
                            if m.len() > 0 {
                                assert(undo_carets(m).len() > 0);
                            }
                        }
                    }
                    self.text.add_cursor_tags(&self.cursors);
                }
                true
            },
            None => {
                self.text.add_cursor_tags(&self.cursors);
                false
            },
        }
    }

    /// Redoes the moment that was undone last: its changes are made
    /// again, in their order, and one cursor is put at the end of what
    /// each change added. Returns whether there was a moment to redo.
    pub fn redo(&mut self) -> (r: bool)
        requires
            old(self).wf(),
        ensures
            final(self).wf(),
            r == (old(self).history.applied < old(self).history.bounds@.len()),
            final(self).print_info == old(self).print_info,
            final(self).cfg == old(self).cfg,
            final(self).history.changes == old(self).history.changes,
            final(self).history.bounds == old(self).history.bounds,
            !r ==> final(self).text.bytes() == old(self).text.bytes() && final(self).history
                == old(self).history && final(self).cursors == old(self).cursors,
            r ==> {
                let m = old(self).history.moment_changes(old(self).history.applied as int);
                let cs = inserted_all(
                    Seq::empty(),
                    0,
                    cursors_at(redo_carets(m), final(self).text.bytes()),
                );
                &&& final(self).history.applied == old(self).history.applied + 1
                &&& final(self).text.bytes() == apply_all(old(self).text.bytes(), m)
                &&& m.len() > 0 ==> same_sels(final(self).cursors.list@, cs.0) && final(self).cursors.main == cs.1
                &&& m.len() == 0 ==> final(self).cursors == old(self).cursors
            },
    {
        self.text.remove_cursor_tags(&self.cursors);
        let r = self.history.redo(&mut self.text);
        match r {
            Some(carets) => {
                if carets.len() > 0 {
                    self.place_cursors(&carets);
                } else {
                    proof {
                        let m = old(self).history.moment_changes(old(self).history.applied as int);
                        assert(redo_carets(m).len() == carets@.map_values(|p: usize| p as int).len());
                        assert(m.len() == 0) by {
                            if m.len() > 0 {
                                assert(redo_carets(m).len() > 0);
                            }
                        }
                    }
                    self.text.add_cursor_tags(&self.cursors);
                }
                true
            },
            None => {
                self.text.add_cursor_tags(&self.cursors);
                false
            },
        }
    }
}

impl File {
    /// Prints the file in an area: the view first follows the main
    /// cursor, and then the text is printed from the first character
    /// shown.
    pub fn print_file(
        &mut self,
        coords: crate::print::Coords,
        is_active: bool,
        hardware_caret: bool,
        palette: &crate::forms::Palette,
    ) -> (r: Vec<crate::print::Cmd>)
        requires
            old(self).wf(),
            coords.wf(),
            coords.br.y < usize::MAX,
            old(self).print_info.x_shift + old(self).cfg.scrolloff.x_gap <= usize::MAX,
            old(self).print_info.x_shift + (coords.br.x - coords.tl.x) <= usize::MAX,
            old(self).cfg.scrolloff.y_gap < usize::MAX,
        ensures
            final(self).text == old(self).text,
            final(self).cursors == old(self).cursors,
            final(self).history == old(self).history,
            final(self).cfg == old(self).cfg,
            final(self).print_info == if old(self).cursors.main < old(self).cursors.list@.len() {
                old(self).print_info.spec_update(
                    old(self).cursors.list@[old(self).cursors.main as int].caret,
                    old(self).text,
                    old(self).cfg,
                    (coords.br.x - coords.tl.x) as usize,
                    (coords.br.y - coords.tl.y) as usize,
                )
            } else {
                old(self).print_info
            },
            r@ == final(self).text.spec_print(
                final(self).print_info,
                final(self).cfg,
                crate::print::PrintCtx {
                    coords,
                    x_shift: final(self).print_info.x_shift,
                    is_active,
                    hardware_caret,
                },
                *palette,
            ),
    {
        self.update_print_info(coords.width(), coords.height());
        self.text.print(self.print_info, &self.cfg, coords, is_active, hardware_caret, palette)
    }
}

/// The cursor `c` after the bytes of `start..old_end` became those of
/// `start..new_end`: its caret and its anchor follow the text, to
/// positions of `bytes`.
pub open spec fn spliced_cursor(c: Cursor, start: usize, old_end: usize, new_end: usize, bytes: Seq<u8>) -> Cursor {
    let moved = |p: Pos|
        point_of(
            bytes,
            snap_of(
                bytes,
                crate::history::spec_shift_pos(
                    p.byte as int,
                    start as int,
                    old_end as int,
                    new_end as int,
                ),
            ),
        );
    Cursor {
        caret: moved(c.caret),
        anchor: match c.anchor {
            Some(a) => Some(moved(a)),
            None => None,
        },
        ..c
    }
}

impl File {
    /// Replaces the bytes of `start..end`, a range between characters, by
    /// `edit`, as a change of its own in the history. The cursors follow
    /// the text: those after the range move with what follows it, and
    /// those within it go to its new end where that lies before them.
    pub fn splice_edit(&mut self, edit: &str, start: usize, end: usize)
        requires
            old(self).wf(),
            start <= end <= old(self).text.bytes().len(),
            crate::buffer::on_boundary(old(self).text.bytes(), start as int),
            crate::buffer::on_boundary(old(self).text.bytes(), end as int),
            old(self).text.bytes().len() - (end - start) + encode_utf8(edit@).len() <= MAX_LEN,
        ensures
            final(self).wf(),
            final(self).print_info == old(self).print_info,
            final(self).cfg == old(self).cfg,
            final(self).text.bytes() == spliced(
                old(self).text.bytes(),
                start as int,
                end as int,
                encode_utf8(edit@),
            ),
            (final(self).cursors.list@, final(self).cursors.main) == inserted_all(
                Seq::empty(),
                0,
                Seq::new(
                    old(self).cursors.list@.len(),
                    |i: int|
                        (
                            spliced_cursor(
                                old(self).cursors.list@[i],
                                start,
                                end,
                                (start + encode_utf8(edit@).len()) as usize,
                                final(self).text.bytes(),
                            ),
                            i == old(self).cursors.main,
                        ),
                ),
            ),
            final(self).text.tags@ == with_cursors(
                crate::tags::transformed(
                    old(self).plain_tags(),
                    start as int,
                    end as int,
                    start + encode_utf8(edit@).len(),
                ),
                final(self).cursors.list@,
                final(self).cursors.main,
                old(self).text.marker,
            ),
    {
        let ghost list = self.cursors.list@;
        let ghost main = self.cursors.main;
        self.text.remove_cursor_tags(&self.cursors);
        let change = crate::history::Change::new(edit, start, end, &self.text);
        let new_end = start + change.added.len();
        self.history.add_change(&mut self.text, change, None);
        let removed = self.cursors.drain();
        let n = removed.len();
        let ghost fb = self.text.bytes();
        let ghost cs = Seq::new(
            list.len(),
            |i: int| (spliced_cursor(list[i], start, end, new_end, fb), i == main),
        );
        let mut k: usize = 0;
        proof {
            assert(cs.take(0).len() == 0);
        }
        while k < n
            invariant
                k <= n == removed@.len() == list.len(),
                forall|i: int| 0 <= i < n ==> #[trigger] removed@[i] == (list[i], i == main),
                forall|i: int|
                    0 <= i < n ==> (#[trigger] list[i]).caret.byte <= MAX_LEN && (list[i].anchor matches Some(
                        a,
                    ) ==> a.byte <= MAX_LEN),
                start <= end <= MAX_LEN,
                start <= new_end <= MAX_LEN,
                fb == self.text.bytes(),
                cs == Seq::new(
                    list.len(),
                    |i: int| (spliced_cursor(list[i], start, end, new_end, fb), i == main),
                ),
                self.text.wf(),
                self.history.tracks(self.text.bytes()),
                self.text.marker == old(self).text.marker,
                self.text.tags@ == crate::tags::transformed(
                    old(self).plain_tags(),
                    start as int,
                    end as int,
                    new_end as int,
                ),
                self.print_info == old(self).print_info,
                self.cfg == old(self).cfg,
                self.cursors.wf_in(fb),
                (self.cursors.list@, self.cursors.main) == inserted_all(
                    Seq::empty(),
                    0,
                    cs.take(k as int),
                ),
            decreases n - k,
        {
            let (mut c, was_main) = removed[k];
            proof {
                assert(cs.take(k + 1).drop_last() == cs.take(k as int));
                assert(list[k as int].caret.byte <= MAX_LEN);
            }
            c.caret = self.text.point_near(
                crate::history::shift_pos(c.caret.byte, start, end, new_end),
            );
            if let Some(a) = c.anchor {
                c.anchor = Some(
                    self.text.point_near(crate::history::shift_pos(a.byte, start, end, new_end)),
                );
            }
            proof {
                assert(cs[k as int] == (c, was_main));
            }
            self.cursors.insert_removed(was_main, c);
            k += 1;
        }
        proof {
            assert(cs.take(n as int) == cs);
        }
        self.text.add_cursor_tags(&self.cursors);
    }
}

} // verus!
