use vstd::prelude::*;

verus! {

/// Issues unique, increasing node handles while a tree is built.
pub struct IdGenerator {
    id: usize,
}

impl IdGenerator {
    /// The handle that the next call of `next` returns.
    pub closed spec fn peek(&self) -> nat {
        self.id as nat
    }

    pub fn new() -> (r: Self)
        ensures
            r.peek() == 0,
    {
        IdGenerator { id: 0 }
    }

    pub fn next(&mut self) -> (r: usize)
        requires
            old(self).peek() < usize::MAX,
        ensures
            r == old(self).peek(),
            final(self).peek() == old(self).peek() + 1,
    {
        let id = self.id;
        self.id = self.id + 1;
        id
    }
}

/// The quick-select character of the visible row at position `n`: the digits
/// for the first ten rows, then the capital letters, then a blank.
pub open spec fn key_char(n: int) -> char {
    if n < 10 {
        (48 + n) as u8 as char
    } else if n < 36 {
        (55 + n) as u8 as char
    } else {
        ' '
    }
}

pub open spec fn keybind_of(n: int) -> Seq<char> {
    seq![key_char(n)]
}

/// Relies on `char::to_string`: a string that holds that one character.
#[verifier::external_body]
fn char_string(c: char) -> (r: String)
    ensures
        r@ == seq![c],
{
    c.to_string()
}

/// The keybind shown beside the visible row at position `index`.
pub fn to_keybind(index: usize) -> (r: String)
    ensures
        r@ == keybind_of(index as int),
{
    if index >= 36 {
        return char_string(' ');
    }
    if index < 10 {
        let c = (48u8 + index as u8) as char;
        return char_string(c);
    }
    let c = (55u8 + index as u8) as char;
    char_string(c)
}

/// Hands out the keybinds of the visible rows in order, one per call.
pub struct KeybindGenerator {
    id: usize,
}

impl KeybindGenerator {
    /// The row position whose keybind the next call of `next` returns.
    pub closed spec fn position(&self) -> nat {
        self.id as nat
    }

    pub fn new() -> (r: Self)
        ensures
            r.position() == 0,
    {
        KeybindGenerator { id: 0 }
    }

    pub fn next(&mut self) -> (r: String)
        requires
            old(self).position() < usize::MAX,
        ensures
            r@ == keybind_of(old(self).position() as int),
            final(self).position() == old(self).position() + 1,
    {
        let id = self.id;
        self.id = self.id + 1;
        to_keybind(id)
    }
}

/// The first ten keybinds are the digits `0` to `9` in order, the next
/// twenty-six the letters `A` to `Z` in order, and every later one is blank.
pub proof fn lemma_keybind_sequence()
    ensures
        keybind_of(0) == seq!['0'],
        keybind_of(9) == seq!['9'],
        keybind_of(10) == seq!['A'],
        keybind_of(35) == seq!['Z'],
        forall|n: int| 0 < n < 10 ==> (#[trigger] key_char(n)) as u32 == key_char(n - 1) as u32 + 1,
        forall|n: int| 10 < n < 36 ==> (#[trigger] key_char(n)) as u32 == key_char(n - 1) as u32 + 1,
        forall|n: int| 0 <= n < 10 ==> '0' <= #[trigger] key_char(n) <= '9',
        forall|n: int| 10 <= n < 36 ==> 'A' <= #[trigger] key_char(n) <= 'Z',
        forall|n: int| n >= 36 ==> #[trigger] keybind_of(n) == seq![' '],
{
}

} // verus!
