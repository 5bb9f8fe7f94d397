//! String interning: each distinct string is stored once and named by a
//! cheap [`Symbol`].
//!
//! The strings are held by a `string_interner` interner with the bucket
//! backend, whose symbols are the positions of the strings in interning
//! order.
use vstd::prelude::*;
use string_interner::backend::BucketBackend;
use string_interner::symbol::SymbolU32;
use string_interner::StringInterner;

verus! {

/// The interner of `string_interner` with the bucket backend, held whole;
/// Verus sees only the strings it holds.
#[verifier::external_body]
pub struct InternerStore {
    inner: StringInterner<BucketBackend>,
}

/// The strings held by a `string_interner` interner with the bucket backend,
/// in the order they were interned; a string's symbol is its position.
pub uninterp spec fn interned_strings(store: InternerStore) -> Seq<Seq<char>>;

/// Calls `StringInterner::new`: an interner that holds no string.
#[verifier::external_body]
fn store_new() -> (r: InternerStore)
    ensures
        interned_strings(r) == Seq::<Seq<char>>::empty(),
{
    InternerStore { inner: StringInterner::new() }
}

/// Calls `StringInterner::get_or_intern` and gives the position that the
/// returned symbol stands for. A string already held is found again and
/// nothing changes; a new one is appended and its position returned. The
/// interner panics when a new string would need a symbol past `u32::MAX - 1`,
/// which the `requires` leaves out; a string already held needs no new
/// symbol.
#[verifier::external_body]
fn store_get_or_intern(store: &mut InternerStore, s: &str) -> (r: usize)
    requires
        interned_strings(*old(store)).contains(s@) || interned_strings(*old(store)).len() < u32::MAX,
    ensures
        interned_strings(*old(store)).contains(s@) ==> {
            &&& interned_strings(*final(store)) == interned_strings(*old(store))
            &&& r < interned_strings(*old(store)).len()
            &&& interned_strings(*old(store))[r as int] == s@
        },
        !interned_strings(*old(store)).contains(s@) ==> {
            &&& interned_strings(*final(store)) == interned_strings(*old(store)).push(s@)
            &&& r == interned_strings(*old(store)).len()
        },
{
    string_interner::Symbol::to_usize(store.inner.get_or_intern(s))
}

/// Calls `StringInterner::get`: the position of a string held, or none
/// when the string is not held.
#[verifier::external_body]
fn store_get(store: &InternerStore, s: &str) -> (r: Option<usize>)
    ensures
        match r {
            Some(i) => i < interned_strings(*store).len() && interned_strings(*store)[i as int] == s@,
            None => !interned_strings(*store).contains(s@),
        },
{
    match store.inner.get(s) {
        Some(symbol) => Some(string_interner::Symbol::to_usize(symbol)),
        None => None,
    }
}

/// Calls `StringInterner::len`: the number of strings held.
#[verifier::external_body]
fn store_len(store: &InternerStore) -> (r: usize)
    ensures
        r == interned_strings(*store).len(),
{
    store.inner.len()
}

/// Calls `StringInterner::resolve` on the symbol for position `index`: the
/// string at that position, or none past the last one.
#[verifier::external_body]
fn store_resolve(store: &InternerStore, index: usize) -> (r: Option<&str>)
    requires
        index < u32::MAX,
    ensures
        match r {
            Some(s) => index < interned_strings(*store).len() && s@ == interned_strings(*store)[index as int],
            None => index >= interned_strings(*store).len(),
        },
{
    match <SymbolU32 as string_interner::Symbol>::try_from_usize(index) {
        Some(symbol) => store.inner.resolve(symbol),
        None => None,
    }
}

/// A handle to an interned string: its position in interning order.
#[derive(Debug, Clone, Copy, PartialEq, Eq, Hash, Structural)]
pub struct Symbol {
    index: usize,
}

impl Symbol {
    /// The position of the string that the symbol names.
    pub closed spec fn spec_index(self) -> nat {
        self.index as nat
    }
}

/// Interned strings, each stored once.
pub struct Interner {
    store: InternerStore,
}

impl Interner {
    /// The interned strings, in interning order.
    pub closed spec fn strings(&self) -> Seq<Seq<char>> {
        interned_strings(self.store)
    }

    /// No string is held twice, and every symbol fits in 32 bits.
    pub open spec fn wf(&self) -> bool {
        &&& self.strings().no_duplicates()
        &&& self.strings().len() <= u32::MAX
    }

    /// The string that `symbol` names.
    pub open spec fn spec_resolve(&self, symbol: Symbol) -> Seq<char> {
        self.strings()[symbol.spec_index() as int]
    }

    /// Creates an interner that holds no string.
    pub fn new() -> (r: Interner)
        ensures
            r.wf(),
            r.strings() == Seq::<Seq<char>>::empty(),
    {
        let store = store_new();
        Interner { store }
    }

    /// Interns a string: the symbol of the stored copy, storing it first if
    /// it was not held yet.
    pub fn get_or_intern(&mut self, s: &str) -> (r: Symbol)
        requires
            old(self).wf(),
            old(self).strings().contains(s@) || old(self).strings().len() < u32::MAX,
        ensures
            final(self).wf(),
            r.spec_index() < final(self).strings().len(),
            final(self).spec_resolve(r) == s@,
            old(self).strings().contains(s@) ==> final(self).strings() == old(self).strings(),
            !old(self).strings().contains(s@) ==> final(self).strings() == old(self).strings().push(s@),
    {
        let ghost before = self.strings();
        let index = store_get_or_intern(&mut self.store, s);
        proof {
            let after = self.strings();
            if !before.contains(s@) {
                assert forall|i: int, j: int| 0 <= i < after.len() && 0 <= j < after.len() && i != j
                    implies after[i] != after[j] by {
                    if i < before.len() && j < before.len() {
                    } else if i < before.len() {
                        assert(after[i] == before[i]);
                        assert(before.contains(before[i]));
                    } else {
                        assert(after[j] == before[j]);
                        assert(before.contains(before[j]));
                    }
                }
            }
        }
        Symbol { index }
    }

    /// The symbol of a string already interned, if it is.
    pub fn get(&self, s: &str) -> (r: Option<Symbol>)
        ensures
            match r {
                Some(sym) => sym.spec_index() < self.strings().len() && self.spec_resolve(sym) == s@,
                None => !self.strings().contains(s@),
            },
    {
        match store_get(&self.store, s) {
            Some(index) => Some(Symbol { index }),
            None => None,
        }
    }

    /// The number of distinct strings interned.
    pub fn len(&self) -> (r: usize)
        ensures
            r == self.strings().len(),
    {
        store_len(&self.store)
    }

    /// Whether `symbol` names a string of this interner.
    pub fn holds(&self, symbol: Symbol) -> (r: bool)
        ensures
            r == (symbol.spec_index() < self.strings().len()),
    {
        symbol.index < store_len(&self.store)
    }

    /// The string that `symbol` names.
    pub fn resolve(&self, symbol: Symbol) -> (r: &str)
        requires
            self.wf(),
            symbol.spec_index() < self.strings().len(),
        ensures
            r@ == self.spec_resolve(symbol),
    {
        match store_resolve(&self.store, symbol.index) {
            Some(s) => s,
            None => {
                proof {
                    assert(false);
                }
                ""
            },
        }
    }
}

/// In an interner, two symbols that name the same string are the same
/// symbol: interning a string again gives the symbol it was given first.
pub proof fn lemma_one_symbol_per_string(interner: Interner, a: Symbol, b: Symbol)
    requires
        interner.wf(),
        a.spec_index() < interner.strings().len(),
        b.spec_index() < interner.strings().len(),
        interner.spec_resolve(a) == interner.spec_resolve(b),
    ensures
        a == b,
{
}

} // verus!
