//! Instructions, constants and chunks of compiled bytecode.

use vstd::prelude::*;
use vstd::string::*;
use crate::text::push_char;

verus! {

/// A source line number attached to an instruction.
#[derive(Clone, Copy, Debug)]
pub struct LineNo {
    pub value: usize,
}

impl Default for LineNo {
    /// Line zero.
    fn default() -> (line: Self)
        ensures
            line.value == 0,
    {
        LineNo { value: 0 }
    }
}

impl LineNo {
    /// The line number `value`.
    pub fn new(value: usize) -> (line: Self)
        ensures
            line.value == value,
    {
        LineNo { value }
    }
}

/// One instruction.
#[derive(Debug, Clone)]
pub enum Op {
    Return,
    /// Loads the constant stored at the given index of the pool.
    Constant(usize),
    Nil,
    True,
    False,
    Negate,
    Add,
    Subtract,
    Multiply,
    Divide,
    Not,
    Equal,
    Greater,
    Less,
    Print,
    Pop,
}

/// A literal value of the constant pool.
///
/// A number is held as its decimal text: it stands for the 64-bit
/// floating-point value that the text denotes, and is shown as that text.
#[derive(Debug, Clone)]
pub enum Constant {
    Number(String),
    String(String),
}

/// The mathematical value of a [`Constant`].
pub enum ConstantView {
    Number(Seq<char>),
    String(Seq<char>),
}

impl View for Constant {
    type V = ConstantView;

    open spec fn view(&self) -> ConstantView {
        match self {
            Constant::Number(text) => ConstantView::Number(text@),
            Constant::String(text) => ConstantView::String(text@),
        }
    }
}

/// A constant as a listing shows it: a number as its decimal text, a string
/// between double quotes.
pub open spec fn constant_text(constant: ConstantView) -> Seq<char> {
    match constant {
        ConstantView::Number(text) => text,
        ConstantView::String(text) => seq!['"'] + text + seq!['"'],
    }
}

impl Constant {
    /// Appends the constant as a listing shows it.
    pub fn push_to(&self, out: &mut String)
        ensures
            final(out)@ == old(out)@ + constant_text(self@),
    {
        match self {
            Constant::Number(text) => {
                out.append(text.as_str());
            },
            Constant::String(text) => {
                push_char(out, '"');
                out.append(text.as_str());
                push_char(out, '"');
            },
        }
    }

    /// The constant as a listing shows it.
    pub fn render(&self) -> (text: String)
        ensures
            text@ == constant_text(self@),
    {
        let mut text = String::new();
        self.push_to(&mut text);
        text
    }
}

/// The views of the constants, in order.
pub open spec fn pool_view(constants: Seq<Constant>) -> Seq<ConstantView> {
    constants.map_values(|c: Constant| c@)
}

/// One compiled unit: instructions with their source lines, and the pool of
/// constants that the instructions refer to by index.
#[derive(Debug, Clone)]
pub struct Chunk {
    pub code: Vec<(Op, LineNo)>,
    pub constants: Vec<Constant>,
}

/// The mathematical value of a [`Chunk`].
pub struct ChunkView {
    pub code: Seq<(Op, LineNo)>,
    pub constants: Seq<ConstantView>,
}

impl View for Chunk {
    type V = ChunkView;

    open spec fn view(&self) -> ChunkView {
        ChunkView { code: self.code@, constants: pool_view(self.constants@) }
    }
}

impl Default for Chunk {
    /// The empty chunk: no instruction and no constant.
    fn default() -> (chunk: Self)
        ensures
            chunk@.code == Seq::<(Op, LineNo)>::empty(),
            chunk@.constants == Seq::<ConstantView>::empty(),
    {
        let chunk = Chunk { code: Vec::new(), constants: Vec::new() };
        assert(chunk@.constants == Seq::<ConstantView>::empty());
        chunk
    }
}

/// A callable unit: its arity, its code and its name.
#[derive(Clone, Debug)]
pub struct Function {
    pub arity: u8,
    pub chunk: Chunk,
    pub name: String,
}

impl Default for Function {
    /// A function without parameters, code or name.
    fn default() -> (function: Self)
        ensures
            function.arity == 0,
            function.chunk@.code == Seq::<(Op, LineNo)>::empty(),
            function.chunk@.constants == Seq::<ConstantView>::empty(),
            function.name@ == Seq::<char>::empty(),
    {
        Function { arity: 0, chunk: Chunk::default(), name: String::new() }
    }
}

/// No two entries of the pool are strings with the same content.
pub open spec fn strings_distinct(pool: Seq<ConstantView>) -> bool {
    forall|i: int, j: int|
        0 <= i < j < pool.len() && pool[i] is String ==> #[trigger] pool[i] != #[trigger] pool[j]
}

/// The pool and the index that interning the string `text` in `pool` gives:
/// the index of the first entry that is this string, with the pool as it
/// was; or, where there is none, a new entry at the end.
pub open spec fn intern_string(pool: Seq<ConstantView>, text: Seq<char>) -> (Seq<ConstantView>, int) {
    match pool.index_of_first(ConstantView::String(text)) {
        Some(index) => (pool, index),
        None => (pool.push(ConstantView::String(text)), pool.len() as int),
    }
}

/// Interning a string gives the index of an entry that holds it, and keeps
/// every entry that the pool had at its index.
pub proof fn lemma_intern_string_holds(pool: Seq<ConstantView>, text: Seq<char>)
    ensures
        ({
            let (after, index) = intern_string(pool, text);
            &&& 0 <= index < after.len()
            &&& after[index] == ConstantView::String(text)
            &&& pool.len() <= after.len() <= pool.len() + 1
            &&& after.subrange(0, pool.len() as int) == pool
        }),
{
    pool.index_of_first_ensures(ConstantView::String(text));
}

/// Interning the same string a second time gives the same index and leaves
/// the pool as the first call left it.
pub proof fn lemma_intern_string_twice(pool: Seq<ConstantView>, text: Seq<char>)
    ensures
        ({
            let (once, first) = intern_string(pool, text);
            let (twice, second) = intern_string(once, text);
            first == second && twice == once
        }),
{
    let needle = ConstantView::String(text);
    let (once, first) = intern_string(pool, text);
    pool.index_of_first_ensures(needle);
    once.index_of_first_ensures(needle);
    assert(once[first] == needle);
    assert(once.contains(needle));
}

/// Interning a string in a pool whose strings are distinct leaves them
/// distinct.
pub proof fn lemma_intern_string_distinct(pool: Seq<ConstantView>, text: Seq<char>)
    requires
        strings_distinct(pool),
    ensures
        strings_distinct(intern_string(pool, text).0),
{
    let needle = ConstantView::String(text);
    pool.index_of_first_ensures(needle);
    let after = intern_string(pool, text).0;
    assert forall|i: int, j: int| 0 <= i < j < after.len() && after[i] is String implies after[i]
        != after[j] by {
        if j == pool.len() {
            assert(pool.contains(pool[i]));
        }
    }
}

/// Appending a number to a pool whose strings are distinct leaves them
/// distinct.
pub proof fn lemma_number_keeps_strings_distinct(pool: Seq<ConstantView>, num: Seq<char>)
    requires
        strings_distinct(pool),
    ensures
        strings_distinct(pool.push(ConstantView::Number(num))),
{
}

/// In a pool whose strings are distinct, two different indices never hold
/// the same string, so equal strings share one index.
pub proof fn lemma_equal_strings_share_index(pool: Seq<ConstantView>, i: int, j: int)
    requires
        strings_distinct(pool),
        0 <= i < pool.len(),
        0 <= j < pool.len(),
        pool[i] is String,
        pool[i] == pool[j],
    ensures
        i == j,
{
}

/// `is_close` may be called on every number of the pool.
pub open spec fn callable_on_numbers<F: Fn(&String) -> bool>(
    constants: Seq<Constant>,
    is_close: F,
) -> bool {
    forall|j: int|
        0 <= j < constants.len() ==> (#[trigger] constants[j] matches Constant::Number(text)
            ==> is_close.requires((&text,)))
}

/// `constant` is no number that `is_close` accepts: it is a string, or a
/// number on which `is_close` gave `false`.
pub open spec fn rejected<F: Fn(&String) -> bool>(constant: Constant, is_close: F) -> bool {
    constant matches Constant::Number(text) ==> is_close.ensures((&text,), false)
}

/// `found` is the outcome of searching the pool for the first number that
/// `is_close` accepts: the index of a number on which it gave `true`, with
/// every entry before it rejected; or `None`, with every entry rejected.
pub open spec fn first_accepted<F: Fn(&String) -> bool>(
    constants: Seq<Constant>,
    is_close: F,
    found: Option<usize>,
) -> bool {
    match found {
        Some(idx) => {
            &&& idx < constants.len()
            &&& constants[idx as int] matches Constant::Number(text)
            &&& is_close.ensures((&text,), true)
            &&& forall|j: int| 0 <= j < idx ==> rejected(#[trigger] constants[j], is_close)
        },
        None => forall|j: int|
            0 <= j < constants.len() ==> rejected(#[trigger] constants[j], is_close),
    }
}

/// The pool after a number was interned at `idx`: as it was where `idx` lies
/// in it, else with the number at its end.
pub open spec fn number_interned(constants: Seq<Constant>, num: String, idx: usize) -> Seq<
    Constant,
> {
    if idx < constants.len() {
        constants
    } else {
        constants.push(Constant::Number(num))
    }
}

/// The outcome of a search that gives the index `idx` for a pool: found
/// where `idx` lies in the pool, else not found.
pub open spec fn as_found(constants: Seq<Constant>, idx: usize) -> Option<usize> {
    if idx < constants.len() {
        Some(idx)
    } else {
        None
    }
}

/// Interning a number a second time gives the same index and appends
/// nothing, where the test gives one answer for each text and accepts the
/// number's own text.
pub proof fn lemma_intern_number_twice<F: Fn(&String) -> bool>(
    pool: Seq<Constant>,
    num: String,
    is_close: F,
    first: usize,
    second: usize,
)
    requires
        first <= pool.len(),
        first_accepted(pool, is_close, as_found(pool, first)),
        second <= number_interned(pool, num, first).len(),
        first_accepted(
            number_interned(pool, num, first),
            is_close,
            as_found(number_interned(pool, num, first), second),
        ),
        forall|text: String, a: bool, b: bool|
            is_close.ensures((&text,), a) && is_close.ensures((&text,), b) ==> a == b,
        forall|answer: bool| is_close.ensures((&num,), answer) ==> answer,
    ensures
        second == first,
        number_interned(number_interned(pool, num, first), num, second) == number_interned(
            pool,
            num,
            first,
        ),
{
    let after = number_interned(pool, num, first);
    if first < pool.len() {
        if second < first {
            assert(rejected(pool[second as int], is_close));
        } else if second > first {
            assert(rejected(pool[first as int], is_close));
        }
    } else {
        if second < pool.len() {
            assert(after[second as int] == pool[second as int]);
            assert(rejected(pool[second as int], is_close));
        } else if second == after.len() {
            assert(rejected(after[pool.len() as int], is_close));
        }
    }
}

impl Chunk {
    /// Appends an instruction with its source line.
    pub fn append_instruction(&mut self, op: Op, line: LineNo)
        ensures
            final(self)@.code == old(self)@.code.push((op, line)),
            final(self)@.constants == old(self)@.constants,
    {
        self.code.push((op, line));
    }

    /// Appends a constant to the pool and returns its index.
    pub fn add_constant(&mut self, val: Constant) -> (idx: usize)
        ensures
            idx == old(self).constants.len(),
            final(self).constants@ == old(self).constants@.push(val),
            final(self)@.constants == old(self)@.constants.push(val@),
            final(self)@.code == old(self)@.code,
    {
        let new_idx: usize = self.constants.len();
        self.constants.push(val);
        proof {
            assert(pool_view(self.constants@) == pool_view(old(self).constants@).push(val@));
        }
        new_idx
    }

    /// The index of the first entry of the pool that is the string `to_find`.
    pub fn find_string(&self, to_find: &str) -> (found: Option<usize>)
        ensures
            match found {
                Some(idx) => self@.constants.index_of_first(ConstantView::String(to_find@))
                    == Some(idx as int),
                None => self@.constants.index_of_first(ConstantView::String(to_find@)) is None,
            },
    {
        let wanted = to_find.to_owned();
        let ghost needle = ConstantView::String(to_find@);
        let mut i: usize = 0;
        while i < self.constants.len()
            invariant
                i <= self.constants.len(),
                wanted@ == to_find@,
                needle == ConstantView::String(to_find@),
                forall|j: int| 0 <= j < i ==> self@.constants[j] != needle,
            decreases self.constants.len() - i,
        {
            assert(self@.constants[i as int] == self.constants[i as int]@);
            let same = match &self.constants[i] {
                Constant::String(value) => *value == wanted,
                Constant::Number(_) => false,
            };
            if same {
                proof {
                    self@.constants.index_of_first_ensures(needle);
                    assert(self@.constants.contains(needle));
                }
                return Some(i);
            }
            i = i + 1;
        }
        proof {
            self@.constants.index_of_first_ensures(needle);
        }
        None
    }

    /// Interns a string: returns the index of the entry that holds `to_add`,
    /// which is appended only if the pool does not hold it yet.
    pub fn add_constant_string(&mut self, to_add: &str) -> (idx: usize)
        ensures
            (final(self)@.constants, idx as int) == intern_string(old(self)@.constants, to_add@),
            final(self)@.code == old(self)@.code,
    {
        if let Some(id) = self.find_string(to_add) {
            id
        } else {
            self.add_constant(Constant::String(to_add.to_owned()))
        }
    }

    /// The index of the first number of the pool that `is_close` accepts.
    ///
    /// The pool holds numbers as text and does no arithmetic on them: whether
    /// an entry counts as the wanted number is the caller's test.
    pub fn find_number<F: Fn(&String) -> bool>(&self, is_close: F) -> (found: Option<usize>)
        requires
            callable_on_numbers(self.constants@, is_close),
        ensures
            first_accepted(self.constants@, is_close, found),
    {
        let mut i: usize = 0;
        while i < self.constants.len()
            invariant
                i <= self.constants.len(),
                callable_on_numbers(self.constants@, is_close),
                forall|j: int| 0 <= j < i ==> rejected(#[trigger] self.constants@[j], is_close),
            decreases self.constants.len() - i,
        {
            let close = match &self.constants[i] {
                Constant::Number(value) => is_close(value),
                Constant::String(_) => false,
            };
            if close {
                return Some(i);
            }
            i = i + 1;
        }
        None
    }

    /// Interns a number: returns the index of the first number of the pool
    /// that `is_close` accepts; where it accepts none, `num` is appended and
    /// its index returned.
    pub fn add_constant_number<F: Fn(&String) -> bool>(&mut self, num: String, is_close: F) -> (idx:
        usize)
        requires
            callable_on_numbers(old(self).constants@, is_close),
        ensures
            idx <= old(self).constants.len(),
            first_accepted(old(self).constants@, is_close, as_found(old(self).constants@, idx)),
            final(self).constants@ == number_interned(old(self).constants@, num, idx),
            final(self)@.code == old(self)@.code,
    {
        if let Some(id) = self.find_number(is_close) {
            id
        } else {
            self.add_constant(Constant::Number(num))
        }
    }
}

} // verus!
