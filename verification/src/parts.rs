//! What a text is made of when it is shown: characters and tag events.

use crate::buffer::{lemma_boundary_is_char_boundary, on_boundary, spec_scalar_len, chars_upto, lemma_counts_monotone, MAX_LEN};
use crate::tags::{count_before, FormId, Tag, TagEntry, ToggleId};
use crate::text::{char_of, Text};
use vstd::prelude::*;

verus! {

/// An element of the stream that a text is rendered from.
#[derive(Clone, Copy, Debug, PartialEq, Eq, Structural)]
pub enum Part {
    Char(char),
    PushForm(FormId),
    PopForm(FormId),
    MainCursor,
    ExtraCursor,
    AlignLeft,
    AlignCenter,
    AlignRight,
    ToggleStart(ToggleId),
    ToggleEnd(ToggleId),
    Termination,
}

impl Part {
    /// The part that a tag is shown as. Every alignment ends by going back
    /// to the left; conceals and ghost texts are handled by the stream
    /// itself and count as terminations.
    pub open spec fn spec_from_raw(tag: Tag) -> Part {
        match tag {
            Tag::PushForm(id) => Part::PushForm(id),
            Tag::PopForm(id) => Part::PopForm(id),
            Tag::MainCursor => Part::MainCursor,
            Tag::ExtraCursor => Part::ExtraCursor,
            Tag::StartAlignLeft => Part::AlignLeft,
            Tag::EndAlignLeft => Part::AlignLeft,
            Tag::StartAlignCenter => Part::AlignCenter,
            Tag::EndAlignCenter => Part::AlignLeft,
            Tag::StartAlignRight => Part::AlignRight,
            Tag::EndAlignRight => Part::AlignLeft,
            Tag::ToggleStart(id) => Part::ToggleStart(id),
            Tag::ToggleEnd(id) => Part::ToggleEnd(id),
            Tag::GhostText(_) => Part::Termination,
            Tag::ConcealStart => Part::Termination,
            Tag::ConcealEnd => Part::Termination,
        }
    }

    /// The part that a tag is shown as.
    pub fn from_raw(tag: Tag) -> (r: Part)
        ensures
            r == Part::spec_from_raw(tag),
    {
        match tag {
            Tag::PushForm(id) => Part::PushForm(id),
            Tag::PopForm(id) => Part::PopForm(id),
            Tag::MainCursor => Part::MainCursor,
            Tag::ExtraCursor => Part::ExtraCursor,
            Tag::StartAlignLeft => Part::AlignLeft,
            Tag::EndAlignLeft => Part::AlignLeft,
            Tag::StartAlignCenter => Part::AlignCenter,
            Tag::EndAlignCenter => Part::AlignLeft,
            Tag::StartAlignRight => Part::AlignRight,
            Tag::EndAlignRight => Part::AlignLeft,
            Tag::ToggleStart(id) => Part::ToggleStart(id),
            Tag::ToggleEnd(id) => Part::ToggleEnd(id),
            Tag::GhostText(_) => Part::Termination,
            Tag::ConcealStart => Part::Termination,
            Tag::ConcealEnd => Part::Termination,
        }
    }

    /// Whether the part is a character.
    #[must_use]
    pub fn is_char(&self) -> (r: bool)
        ensures
            r == (*self is Char),
    {
        matches!(self, Part::Char(_))
    }

    /// The character, if the part is one.
    pub fn as_char(&self) -> (r: Option<char>)
        ensures
            r == (match *self {
                Part::Char(c) => Some(c),
                _ => None,
            }),
    {
        if let Part::Char(c) = self {
            Some(*c)
        } else {
            None
        }
    }

    /// Whether the part is a tag event.
    pub fn is_tag(&self) -> (r: bool)
        ensures
            r == !(*self is Char),
    {
        !self.is_char()
    }
}

/// A bit of a text as it is stored: a character or a tag.
#[derive(Clone, Copy, Debug, PartialEq, Eq, Structural)]
pub enum TextBit {
    Tag(Tag),
    Char(char),
}

impl TextBit {
    /// The character, if the bit is one.
    pub fn as_char(&self) -> (r: Option<&char>)
        ensures
            r == (match self {
                TextBit::Char(c) => Some(c),
                TextBit::Tag(_) => None,
            }),
    {
        if let TextBit::Char(v) = self {
            Some(v)
        } else {
            None
        }
    }
}

/// A part with the place in the text that it comes from: the byte offset
/// and the index of the character that it is, or that it stands before.
#[derive(Clone, Copy, Debug, PartialEq, Eq, Structural)]
pub struct Item {
    pub byte: usize,
    pub ch: usize,
    pub part: Part,
}

/// The parts of a ghost text, each at the place `b`, `ch`.
pub open spec fn placed(parts: Seq<Part>, b: int, ch: int) -> Seq<Item> {
    parts.map_values(|p: Part| Item { byte: b as usize, ch: ch as usize, part: p })
}

/// What a tag adds to the stream at the place `b`, `ch`, where `conceal`
/// conceals are open: a conceal adds nothing when it begins and a
/// termination when the last one ends; a ghost text adds its parts and a
/// termination; any other tag adds the part that it is shown as.
pub open spec fn tag_items(
    e: TagEntry,
    ghosts: Seq<Vec<Part>>,
    b: int,
    ch: int,
    conceal: nat,
) -> Seq<Item> {
    let end = Item { byte: b as usize, ch: ch as usize, part: Part::Termination };
    match e.tag {
        Tag::ConcealStart => Seq::empty(),
        Tag::ConcealEnd => if conceal == 1 {
            seq![end]
        } else {
            Seq::empty()
        },
        Tag::GhostText(g) => if conceal == 0 && g.id < ghosts.len() {
            placed(ghosts[g.id as int]@, b, ch).push(end)
        } else {
            Seq::empty()
        },
        t => seq![Item { byte: b as usize, ch: ch as usize, part: Part::spec_from_raw(t) }],
    }
}

/// The number of open conceals after a tag.
pub open spec fn conceal_after(t: Tag, conceal: nat) -> nat {
    match t {
        Tag::ConcealStart => conceal + 1,
        Tag::ConcealEnd => if conceal > 0 {
            (conceal - 1) as nat
        } else {
            0
        },
        _ => conceal,
    }
}

/// The stream of parts from byte offset `b` on, up to `limit`: at each
/// character first the tags that lie at or before it, in their order, then
/// the character itself, unless a conceal is open.
pub open spec fn parts_from(
    bytes: Seq<u8>,
    tags: Seq<TagEntry>,
    ghosts: Seq<Vec<Part>>,
    limit: int,
    b: int,
    ch: int,
    k: int,
    conceal: nat,
) -> Seq<Item>
    decreases bytes.len() - b, tags.len() - k,
{
    if 0 <= k < tags.len() && tags[k].offset <= b && tags[k].offset < limit {
        tag_items(tags[k], ghosts, b, ch, conceal) + parts_from(
            bytes,
            tags,
            ghosts,
            limit,
            b,
            ch,
            k + 1,
            conceal_after(tags[k].tag, conceal),
        )
    } else if 0 <= b < bytes.len() && b < limit {
        let w = spec_scalar_len(bytes[b]);
        let next = if b + w <= bytes.len() {
            b + w
        } else {
            bytes.len() as int
        };
        let rest = parts_from(bytes, tags, ghosts, limit, next, ch + 1, k, conceal);
        if conceal == 0 {
            seq![Item { byte: b as usize, ch: ch as usize, part: Part::Char(char_of(bytes, b)) }]
                + rest
        } else {
            rest
        }
    } else {
        Seq::empty()
    }
}

impl Text {
    /// The stream of parts of the text between the byte offsets `at` and
    /// `limit`.
    pub open spec fn spec_parts(&self, at: int, limit: int) -> Seq<Item> {
        parts_from(
            self.bytes(),
            self.tags@,
            self.ghosts@,
            limit,
            at,
            chars_upto(self.bytes(), at) as int,
            count_before(self.tags@, at as usize),
            0,
        )
    }

    /// The stream of parts from byte offset `at`, which lies between two
    /// characters, up to `limit`: the characters that begin before `limit`
    /// and the tags that lie before it. With a limit beyond the length of
    /// the text the stream goes to its end, the tags at the end included.
    pub fn parts_in(&self, at: usize, limit: usize) -> (r: Vec<Item>)
        requires
            self.wf(),
            on_boundary(self.bytes(), at as int),
        ensures
            r@ == self.spec_parts(at as int, limit as int),
    {
        let ghost bytes = self.bytes();
        let ghost tags = self.tags@;
        let ghost ghosts = self.ghosts@;
        let len = self.len_bytes();
        let n = self.tags.len();
        let mut out: Vec<Item> = Vec::new();
        let mut b: usize = at;
        let mut ch: usize = self.point_at(at).ch;
        let mut k: usize = self.tags.first_at(at);
        let mut conceal: usize = 0;
        proof {
            lemma_counts_monotone(bytes, 0, at as int);
        }
        loop
            invariant
                self.wf(),
                bytes == self.bytes(),
                tags == self.tags@,
                ghosts == self.ghosts@,
                len == bytes.len(),
                n == tags.len(),
                on_boundary(bytes, b as int),
                k <= n,
                ch <= b <= len <= MAX_LEN,
                conceal <= k,
                out@ + parts_from(bytes, tags, ghosts, limit as int, b as int, ch as int, k as int, conceal as nat)
                    == self.spec_parts(at as int, limit as int),
            decreases len - b, n - k,
        {
            if k < n && self.tags.entries[k].offset <= b && self.tags.entries[k].offset < limit {
                let e = self.tags.entries[k];
                let ghost before = out@;
                let ghost added = tag_items(e, ghosts, b as int, ch as int, conceal as nat);
                let ghost open = conceal as nat;
                match e.tag {
                    Tag::ConcealStart => {
                        conceal += 1;
                    },
                    Tag::ConcealEnd => {
                        if conceal == 1 {
                            out.push(Item { byte: b, ch, part: Part::Termination });
                        }
                        if conceal > 0 {
                            conceal -= 1;
                        }
                    },
                    Tag::GhostText(g) => {
                        if conceal == 0 && g.id < self.ghosts.len() {
                            let parts = &self.ghosts[g.id];
                            let mut i: usize = 0;
                            while i < parts.len()
                                invariant
                                    i <= parts@.len(),
                                    out@ == before + placed(parts@.take(i as int), b as int, ch as int),
                                decreases parts.len() - i,
                            {
                                out.push(Item { byte: b, ch, part: parts[i] });
                                proof {
                                    assert(parts@.take(i + 1) == parts@.take(i as int).push(
                                        parts@[i as int],
                                    ));
                                    assert(out@ =~= before + placed(
                                        parts@.take(i + 1),
                                        b as int,
                                        ch as int,
                                    ));
                                }
                                i += 1;
                            }
                            proof {
                                assert(parts@.take(i as int) == parts@);
                            }
                            out.push(Item { byte: b, ch, part: Part::Termination });
                        }
                    },
                    t => {
                        out.push(Item { byte: b, ch, part: Part::from_raw(t) });
                    },
                }
                proof {
                    assert(out@ =~= before + added);
                    assert(before + (added + parts_from(
                        bytes,
                        tags,
                        ghosts,
                        limit as int,
                        b as int,
                        ch as int,
                        k + 1,
                        conceal_after(e.tag, open),
                    )) =~= (before + added) + parts_from(
                        bytes,
                        tags,
                        ghosts,
                        limit as int,
                        b as int,
                        ch as int,
                        k + 1,
                        conceal_after(e.tag, open),
                    ));
                }
                k += 1;
            } else if b < len && b < limit {
                let ghost before = out@;
                let c = self.char_at(b);
                let w = crate::buffer::scalar_len(crate::buffer::buf_get(&self.buf, b));
                let ghost rest = parts_from(
                    bytes,
                    tags,
                    ghosts,
                    limit as int,
                    b + w,
                    ch + 1,
                    k as int,
                    conceal as nat,
                );
                if conceal == 0 {
                    out.push(Item { byte: b, ch, part: Part::Char(c.unwrap()) });
                    proof {
                        assert(before + (seq![
                            Item { byte: b, ch, part: Part::Char(char_of(bytes, b as int)) },
                        ] + rest) =~= out@ + rest);
                    }
                }
                proof {
                    lemma_scalar_end_is_boundary(bytes, b as int);
                }
                b += w;
                ch += 1;
            } else {
                proof {
                    assert(out@ + Seq::<Item>::empty() == out@);
                }
                return out;
            }
        }
    }

    /// The stream of parts of the whole text.
    pub fn parts(&self) -> (r: Vec<Item>)
        requires
            self.wf(),
        ensures
            r@ == self.spec_parts(0, self.bytes().len() as int + 1),
    {
        proof {
            crate::buffer::lemma_valid_starts_with_start(self.bytes());
        }
        let len = self.len_bytes();
        self.parts_in(0, len + 1)
    }
}

/// In valid UTF-8 the character that begins on a boundary ends on one.
pub proof fn lemma_scalar_end_is_boundary(bytes: Seq<u8>, b: int)
    requires
        vstd::utf8::valid_utf8(bytes),
        on_boundary(bytes, b),
        b < bytes.len(),
    ensures
        b + spec_scalar_len(bytes[b]) <= bytes.len(),
        on_boundary(bytes, b + spec_scalar_len(bytes[b])),
{
    let tail = bytes.subrange(b, bytes.len() as int);
    lemma_boundary_is_char_boundary(bytes, b);
    vstd::utf8::valid_utf8_split(bytes, b);
    assert(tail[0] == bytes[b]);
    assert(vstd::utf8::valid_first_scalar(tail));
    let w = spec_scalar_len(bytes[b]);
    assert(vstd::utf8::length_of_first_scalar(tail) == w);
    let rest = vstd::utf8::pop_first_scalar(tail);
    assert(vstd::utf8::valid_utf8(rest));
    crate::buffer::lemma_valid_starts_with_start(rest);
    if b + w < bytes.len() {
        assert(rest[0] == bytes[b + w]);
    }
}

} // verus!
