//! A one-line text input.

use vstd::prelude::*;

verus! {

/// The text typed so far. Typing appends and deleting takes from the end.
#[derive(Debug)]
pub struct TextField {
    pub value: String,
}

impl TextField {
    /// An empty field.
    pub fn new() -> (field: Self)
        ensures
            field.value@ == Seq::<char>::empty(),
    {
        TextField { value: String::new() }
    }

    /// Empties the field.
    pub fn clear(&mut self)
        ensures
            final(self).value@ == Seq::<char>::empty(),
    {
        self.value.clear();
    }

    /// Appends a typed character.
    pub fn insert(&mut self, c: char)
        ensures
            final(self).value@ == old(self).value@.push(c),
    {
        self.value.push(c);
    }

    /// Deletes the last character; an empty field stays empty.
    pub fn backspace(&mut self)
        ensures
            final(self).value@ == if old(self).value@.len() == 0 {
                old(self).value@
            } else {
                old(self).value@.drop_last()
            },
    {
        let _ = self.value.pop();
    }
}

/// Deleting undoes typing, and takes nothing from an empty field.
pub proof fn deleting_undoes_typing(
    typed: &mut TextField,
    c: char,
    deleted: &mut TextField,
    empty: &mut TextField,
    cleared: &mut TextField,
    fresh: TextField,
)
    requires
        call_ensures(TextField::insert, (typed, c), ()),
        old(deleted).value@ == final(typed).value@,
        call_ensures(TextField::backspace, (deleted,), ()),
        call_ensures(TextField::backspace, (empty,), ()),
        call_ensures(TextField::clear, (cleared,), ()),
        call_ensures(TextField::new, (), fresh),
        old(empty).value@.len() == 0,
    ensures
        final(typed).value@ == old(typed).value@ + seq![c],
        final(deleted).value@ == old(typed).value@,
        final(empty).value@.len() == 0,
        final(cleared).value@.len() == 0,
        fresh.value@.len() == 0,
{
    assert(old(typed).value@ + seq![c] =~= old(typed).value@.push(c));
    assert(old(typed).value@.push(c).drop_last() =~= old(typed).value@);
}

} // verus!
