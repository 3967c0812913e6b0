//! Forms: visual styles, the palette that names them, and the stack by
//! which the forms in force are composed while a text is printed.

use crate::tags::{FormId, Tag};
use vstd::prelude::*;

verus! {

/// The id of the form `"Default"`.
pub const DEFAULT_ID: u16 = 0;

/// The id of the form `"MainSel"`, of the selection of the main cursor.
pub const MAIN_SEL_ID: u16 = 1;

/// The id of the form `"ExtraSel"`, of the selections of the other cursors.
pub const EXTRA_SEL_ID: u16 = 2;

/// The id of the form `"MainCursor"`, of the caret of the main cursor.
pub const MAIN_CURSOR_ID: u16 = 3;

/// The id of the form `"ExtraCursor"`, of the carets of the other cursors.
pub const EXTRA_CURSOR_ID: u16 = 4;

/// The id of the form `"LineNumbers"`.
pub const LINE_NUMBERS_ID: u16 = 5;

/// The id of the form `"MainLineNumber"`.
pub const MAIN_LINE_NUMBER_ID: u16 = 6;

/// The id of the form `"WrappedLineNumbers"`.
pub const WRAPPED_LINE_NUMBERS_ID: u16 = 7;

/// The id of the form `"WrappedMainLineNumber"`.
pub const WRAPPED_MAIN_LINE_NUMBER_ID: u16 = 8;

/// The number of forms that every palette begins with.
pub const BUILTIN_FORMS: usize = 9;

/// A colour of the terminal.
#[derive(Clone, Copy, Debug, PartialEq, Eq, Structural)]
pub struct Color {
    pub r: u8,
    pub g: u8,
    pub b: u8,
}

/// A visual style: colours that may be left open, attributes as a set of
/// bits, and whether the style ends the layering below it.
#[derive(Clone, Copy, Debug, PartialEq, Eq, Structural)]
pub struct Form {
    pub fg: Option<Color>,
    pub bg: Option<Color>,
    pub attrs: u16,
}

impl Form {
    /// The form that leaves everything open.
    pub open spec fn spec_plain() -> Form {
        Form { fg: None, bg: None, attrs: 0 }
    }

    /// The form that leaves everything open.
    pub fn plain() -> (r: Form)
        ensures
            r == Form::spec_plain(),
    {
        Form { fg: None, bg: None, attrs: 0 }
    }

    /// This form with `top` laid over it: the colours of `top` where it
    /// has them, and the attributes of both.
    pub open spec fn spec_under(self, top: Form) -> Form {
        Form {
            fg: if top.fg is Some {
                top.fg
            } else {
                self.fg
            },
            bg: if top.bg is Some {
                top.bg
            } else {
                self.bg
            },
            attrs: self.attrs | top.attrs,
        }
    }

    /// This form with `top` laid over it.
    pub fn under(self, top: Form) -> (r: Form)
        ensures
            r == self.spec_under(top),
    {
        Form {
            fg: if top.fg.is_some() {
                top.fg
            } else {
                self.fg
            },
            bg: if top.bg.is_some() {
                top.bg
            } else {
                self.bg
            },
            attrs: self.attrs | top.attrs,
        }
    }
}

/// The tags that show a cursor: the one of its caret, and the two that
/// push and pop the form of its selection.
pub fn cursor_tags(is_main: bool) -> (r: (Tag, Tag, Tag))
    ensures
        r == spec_cursor_tags(is_main),
{
    if is_main {
        (
            Tag::MainCursor,
            Tag::PushForm(FormId { id: MAIN_SEL_ID }),
            Tag::PopForm(FormId { id: MAIN_SEL_ID }),
        )
    } else {
        (
            Tag::ExtraCursor,
            Tag::PushForm(FormId { id: EXTRA_SEL_ID }),
            Tag::PopForm(FormId { id: EXTRA_SEL_ID }),
        )
    }
}

/// The tags that show a cursor.
pub open spec fn spec_cursor_tags(is_main: bool) -> (Tag, Tag, Tag) {
    if is_main {
        (
            Tag::MainCursor,
            Tag::PushForm(FormId { id: MAIN_SEL_ID }),
            Tag::PopForm(FormId { id: MAIN_SEL_ID }),
        )
    } else {
        (
            Tag::ExtraCursor,
            Tag::PushForm(FormId { id: EXTRA_SEL_ID }),
            Tag::PopForm(FormId { id: EXTRA_SEL_ID }),
        )
    }
}

/// The index of the first of `names` that equals `name`, or their number
/// where none does.
pub open spec fn index_of_name(names: Seq<String>, name: Seq<char>, from: int) -> int
    decreases names.len() - from,
{
    if from < 0 || from >= names.len() {
        names.len() as int
    } else if names[from]@ == name {
        from
    } else {
        index_of_name(names, name, from + 1)
    }
}

/// The index that `index_of_name` finds lies between `from` and the
/// number of names.
pub proof fn lemma_index_of_name(names: Seq<String>, name: Seq<char>, from: int)
    requires
        0 <= from <= names.len(),
    ensures
        from <= index_of_name(names, name, from) <= names.len(),
    decreases names.len() - from,
{
    if from < names.len() && names[from]@ != name {
        lemma_index_of_name(names, name, from + 1);
    }
}

/// The registry of forms: each form has a name, and its id is its index.
#[derive(Clone, Debug)]
pub struct Palette {
    pub names: Vec<String>,
    pub forms: Vec<Form>,
}

impl Palette {
    /// Whether every form has a name and the ids fit in 16 bits.
    pub open spec fn wf(&self) -> bool {
        self.names@.len() == self.forms@.len() && self.forms@.len() <= 0x10000
    }

    /// The id that `name` has, if the palette knows it.
    pub open spec fn spec_id_of(&self, name: Seq<char>) -> Option<FormId> {
        let i = index_of_name(self.names@, name, 0);
        if i < self.names@.len() {
            Some(FormId { id: i as u16 })
        } else {
            None
        }
    }

    /// The form that `id` names; the plain form where it names none.
    pub open spec fn spec_form_of(&self, id: FormId) -> Form {
        if id.id < self.forms@.len() {
            self.forms@[id.id as int]
        } else {
            Form::spec_plain()
        }
    }

    /// A palette without forms.
    pub fn new() -> (r: Self)
        ensures
            r.names@.len() == 0,
            r.forms@.len() == 0,
            r.wf(),
    {
        Palette { names: Vec::new(), forms: Vec::new() }
    }

    /// The id that `name` has, if the palette knows it.
    pub fn id_of(&self, name: &String) -> (r: Option<FormId>)
        requires
            self.wf(),
        ensures
            r == self.spec_id_of(name@),
    {
        let mut i: usize = 0;
        while i < self.names.len()
            invariant
                i <= self.names@.len() <= 0x10000,
                index_of_name(self.names@, name@, 0) == index_of_name(self.names@, name@, i as int),
            decreases self.names.len() - i,
        {
            if self.names[i] == *name {
                return Some(FormId { id: i as u16 });
            }
            i += 1;
        }
        None
    }

    /// Gives `name` the form `form` and returns its id: the one it had
    /// where the palette knew the name, else the next one. Returns `None`
    /// where the palette is full and the name is new.
    pub fn set_form(&mut self, name: String, form: Form) -> (r: Option<FormId>)
        requires
            old(self).wf(),
        ensures
            final(self).wf(),
            match old(self).spec_id_of(name@) {
                Some(id) => r == Some(id) && final(self).names@ == old(self).names@
                    && final(self).forms@ == old(self).forms@.update(id.id as int, form),
                None => if old(self).forms@.len() < 0x10000 {
                    &&& r == Some(FormId { id: old(self).forms@.len() as u16 })
                    &&& final(self).names@ == old(self).names@.push(name)
                    &&& final(self).forms@ == old(self).forms@.push(form)
                } else {
                    r is None && *final(self) == *old(self)
                },
            },
    {
        proof {
            lemma_index_of_name(self.names@, name@, 0);
        }
        match self.id_of(&name) {
            Some(id) => {
                self.forms.set(id.id as usize, form);
                Some(id)
            },
            None => {
                let n = self.forms.len();
                if n < 0x10000 {
                    self.names.push(name);
                    self.forms.push(form);
                    Some(FormId { id: n as u16 })
                } else {
                    None
                }
            },
        }
    }

    /// The form that `id` names; the plain form where it names none.
    pub fn form_of(&self, id: FormId) -> (r: Form)
        ensures
            r == self.spec_form_of(id),
    {
        if (id.id as usize) < self.forms.len() {
            self.forms[id.id as usize]
        } else {
            Form::plain()
        }
    }
}

/// The index of the last occurrence of `id` in `stack`, or -1.
pub open spec fn last_index_of(stack: Seq<FormId>, id: FormId) -> int
    decreases stack.len(),
{
    if stack.len() == 0 {
        -1
    } else if stack.last() == id {
        stack.len() - 1
    } else {
        last_index_of(stack.drop_last(), id)
    }
}

/// The forms of `stack` laid one over the other, from the first to the
/// last, over `base`.
pub open spec fn composed(palette: Palette, stack: Seq<FormId>, base: Form) -> Form
    decreases stack.len(),
{
    if stack.len() == 0 {
        base
    } else {
        composed(palette, stack.drop_last(), base).spec_under(palette.spec_form_of(stack.last()))
    }
}

/// The stack of the forms in force while a text is printed.
#[derive(Clone, Debug)]
pub struct FormFormer {
    pub stack: Vec<FormId>,
}

impl FormFormer {
    /// An empty stack.
    pub fn new() -> (r: Self)
        ensures
            r.stack@.len() == 0,
    {
        FormFormer { stack: Vec::new() }
    }

    /// Puts a form on the stack.
    pub fn apply(&mut self, id: FormId)
        ensures
            final(self).stack@ == old(self).stack@.push(id),
    {
        self.stack.push(id);
    }

    /// Takes the latest occurrence of a form off the stack, if it is on
    /// it.
    pub fn remove(&mut self, id: FormId)
        ensures
            final(self).stack@ == if last_index_of(old(self).stack@, id) >= 0 {
                old(self).stack@.remove(last_index_of(old(self).stack@, id))
            } else {
                old(self).stack@
            },
    {
        let mut i: usize = self.stack.len();
        proof {
            assert(self.stack@.take(i as int) == self.stack@);
        }
        while i > 0
            invariant
                i <= self.stack@.len(),
                self.stack@ == old(self).stack@,
                last_index_of(self.stack@, id) == last_index_of(self.stack@.take(i as int), id),
            decreases i,
        {
            proof {
                assert(self.stack@.take(i as int).drop_last() == self.stack@.take(i - 1));
            }
            if self.stack[i - 1].id == id.id {
                self.stack.remove(i - 1);
                return ;
            }
            i -= 1;
        }
        proof {
            assert(self.stack@.take(self.stack@.len() as int) == self.stack@);
        }
    }

    /// The form that the stack composes: each form laid over those below
    /// it, from the bottom to the top.
    pub fn make_form(&self, palette: &Palette) -> (r: Form)
        ensures
            r == composed(*palette, self.stack@, Form::spec_plain()),
    {
        let mut form = Form::plain();
        let mut i: usize = 0;
        while i < self.stack.len()
            invariant
                i <= self.stack@.len(),
                form == composed(*palette, self.stack@.take(i as int), Form::spec_plain()),
            decreases self.stack.len() - i,
        {
            proof {
                assert(self.stack@.take(i + 1).drop_last() == self.stack@.take(i as int));
            }
            form = form.under(palette.form_of(self.stack[i]));
            i += 1;
        }
        proof {
            assert(self.stack@.take(i as int) == self.stack@);
        }
        form
    }
}

} // verus!
