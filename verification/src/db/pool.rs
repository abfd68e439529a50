//! The string pool: every repeated string of the databases is stored once and
//! named by a handle.

use crate::text::{strings_view, strs_view};
use string_interner::{DefaultStringInterner, DefaultSymbol, Symbol};
use vstd::prelude::*;

verus! {

/// The handle of a pooled string. It means something only to the pool that
/// gave it out.
#[derive(Clone, Copy, Debug, PartialEq, Eq, Structural, Hash)]
pub struct Istr {
    pub id: u32,
}

/// The interner of the `string_interner` crate, with its default backend and
/// symbols.
#[verifier::external_body]
pub struct Interner {
    inner: DefaultStringInterner,
}

/// The strings that an interner holds, in the order in which they came in.
/// The symbol of a string is its position in this list.
pub uninterp spec fn interned(i: Interner) -> Seq<Seq<char>>;

/// `StringInterner::new`: an interner that holds nothing.
#[verifier::external_body]
fn interner_new() -> (i: Interner)
    ensures
        interned(i).len() == 0,
{
    Interner { inner: DefaultStringInterner::new() }
}

/// `StringInterner::len`: the number of strings held.
#[verifier::external_body]
fn interner_len(i: &Interner) -> (n: usize)
    ensures
        n == interned(*i).len(),
{
    i.inner.len()
}

/// `StringInterner::get`: the symbol of `s`, where the interner holds `s`.
#[verifier::external_body]
fn interner_get(i: &Interner, s: &str) -> (r: Option<u32>)
    ensures
        match r {
            Some(n) => n < interned(*i).len() && interned(*i)[n as int] == s@,
            None => !interned(*i).contains(s@),
        },
{
    match i.inner.get(s) {
        Some(sym) => Some(sym.to_usize() as u32),
        None => None,
    }
}

/// `StringInterner::get_or_intern`: the symbol of `s`. Where the interner
/// holds `s` already, nothing changes. Where it does not, `s` goes to the end
/// of the list. The call panics when a new string would get a symbol beyond
/// the 32 bits of the default symbol type, which `requires` rules out.
#[verifier::external_body]
fn interner_get_or_intern(i: &mut Interner, s: &str) -> (n: u32)
    requires
        interned(*old(i)).contains(s@) || interned(*old(i)).len() < u32::MAX,
    ensures
        n < interned(*final(i)).len(),
        interned(*final(i))[n as int] == s@,
        interned(*old(i)).contains(s@) ==> interned(*final(i)) == interned(*old(i)),
        !interned(*old(i)).contains(s@) ==> interned(*final(i)) == interned(*old(i)).push(s@),
{
    i.inner.get_or_intern(s).to_usize() as u32
}

/// `StringInterner::resolve`: the string that a symbol stands for, where the
/// interner gave that symbol out.
#[verifier::external_body]
fn interner_resolve(i: &Interner, n: u32) -> (r: Option<&str>)
    ensures
        match r {
            Some(s) => n < interned(*i).len() && s@ == interned(*i)[n as int],
            None => n >= interned(*i).len(),
        },
{
    match DefaultSymbol::try_from_usize(n as usize) {
        Some(sym) => i.inner.resolve(sym),
        None => None,
    }
}

/// `StringInterner::shrink_to_fit`: gives back unused capacity; what the
/// interner holds stays.
#[verifier::external_body]
fn interner_shrink_to_fit(i: &mut Interner)
    ensures
        interned(*final(i)) == interned(*old(i)),
{
    i.inner.shrink_to_fit()
}

/// No string stands twice in `strings`.
pub open spec fn distinct(strings: Seq<Seq<char>>) -> bool {
    forall|a: int, b: int|
        0 <= a < strings.len() && 0 <= b < strings.len() && #[trigger] strings[a]
            == #[trigger] strings[b] ==> a == b
}

/// The strings of a pool after `s` was interned in it: a pool that holds `s`
/// stays what it is, any other gets `s` at its end.
pub open spec fn after_intern(pool: Seq<Seq<char>>, s: Seq<char>) -> Seq<Seq<char>> {
    if pool.contains(s) {
        pool
    } else {
        pool.push(s)
    }
}

/// The strings of a pool after each of `items` was interned in it, in their
/// order.
pub open spec fn after_interns(pool: Seq<Seq<char>>, items: Seq<Seq<char>>) -> Seq<Seq<char>>
    decreases items.len(),
{
    if items.len() == 0 {
        pool
    } else {
        after_intern(after_interns(pool, items.drop_last()), items.last())
    }
}

/// Interning a list and then another is interning the two as one list.
pub proof fn lemma_after_interns_joined(
    pool: Seq<Seq<char>>,
    first: Seq<Seq<char>>,
    second: Seq<Seq<char>>,
)
    ensures
        after_interns(pool, first + second) == after_interns(after_interns(pool, first), second),
    decreases second.len(),
{
    if second.len() == 0 {
        assert(first + second =~= first);
    } else {
        lemma_after_interns_joined(pool, first, second.drop_last());
        assert((first + second).drop_last() =~= first + second.drop_last());
    }
}

/// Interning a list of one string is interning that string.
pub proof fn lemma_after_interns_one(pool: Seq<Seq<char>>, s: Seq<char>)
    ensures
        after_interns(pool, seq![s]) == after_intern(pool, s),
{
    assert(seq![s].drop_last() =~= Seq::<Seq<char>>::empty());
    assert(after_interns(pool, seq![s].drop_last()) == pool);
}

/// Interning adds at most one string for each that is interned.
pub proof fn lemma_after_interns_len(pool: Seq<Seq<char>>, items: Seq<Seq<char>>)
    ensures
        pool.len() <= after_interns(pool, items).len() <= pool.len() + items.len(),
    decreases items.len(),
{
    if items.len() > 0 {
        lemma_after_interns_len(pool, items.drop_last());
    }
}

/// The list of a string that may be missing.
pub open spec fn opt_item(s: Option<Seq<char>>) -> Seq<Seq<char>> {
    match s {
        Some(x) => seq![x],
        None => Seq::empty(),
    }
}

/// The most strings that a pool can hold.
pub open spec fn pool_limit() -> nat {
    u32::MAX as nat
}

/// The string pool. Its view is the list of the strings it holds; a handle is
/// a position in that list.
pub struct Pool {
    inner: Interner,
}

impl View for Pool {
    type V = Seq<Seq<char>>;

    closed spec fn view(&self) -> Seq<Seq<char>> {
        interned(self.inner)
    }
}

impl Pool {
    /// The pool holds no string twice and no more strings than it has
    /// handles for. This holds of every pool.
    #[verifier::type_invariant]
    pub open spec fn wf(&self) -> bool {
        distinct(self@) && self@.len() <= pool_limit()
    }

    /// The pool gave out the handle `h`.
    pub open spec fn knows(&self, h: Istr) -> bool {
        h.id < self@.len()
    }

    /// The string that the handle `h` stands for.
    pub open spec fn text(&self, h: Istr) -> Seq<char> {
        self@[h.id as int]
    }

    /// A pool that holds nothing.
    pub fn new() -> (p: Pool)
        ensures
            p.wf(),
            p@.len() == 0,
    {
        Pool { inner: interner_new() }
    }

    /// The number of strings held.
    pub fn len(&self) -> (n: usize)
        ensures
            n == self@.len(),
            self.wf(),
    {
        proof {
            use_type_invariant(self);
        }
        interner_len(&self.inner)
    }

    /// The handle of `s`, where the pool holds `s`.
    pub fn get(&self, s: &str) -> (r: Option<Istr>)
        ensures
            match r {
                Some(h) => self.knows(h) && self.text(h) == s@,
                None => !self@.contains(s@),
            },
    {
        match interner_get(&self.inner, s) {
            Some(id) => Some(Istr { id }),
            None => None,
        }
    }

    /// The handle of `s`. A string that the pool holds keeps its handle and
    /// the pool stays what it was; a new string goes to the end of the list.
    pub fn intern(&mut self, s: &str) -> (h: Istr)
        requires
            old(self)@.contains(s@) || old(self)@.len() < pool_limit(),
        ensures
            final(self).wf(),
            final(self)@ == after_intern(old(self)@, s@),
            final(self).knows(h),
            final(self).text(h) == s@,
    {
        proof {
            use_type_invariant(&*self);
        }
        let mut held = Pool::new();
        std::mem::swap(self, &mut held);
        let Pool { mut inner } = held;
        let id = interner_get_or_intern(&mut inner, s);
        *self = Pool { inner };
        Istr { id }
    }

    /// The handle of `s`, where the pool holds `s` or has a handle left for
    /// it; a pool that is full and does not hold `s` stays what it is.
    pub fn try_intern(&mut self, s: &str) -> (r: Option<Istr>)
        ensures
            final(self).wf(),
            r is Some <==> old(self)@.contains(s@) || old(self)@.len() < pool_limit(),
            match r {
                Some(h) => final(self)@ == after_intern(old(self)@, s@) && final(self).knows(h)
                    && final(self).text(h) == s@,
                None => final(self)@ == old(self)@,
            },
    {
        if self.len() >= 4294967295 {
            match self.get(s) {
                Some(h) => {
                    assert(self@[h.id as int] == s@);
                    Some(h)
                },
                None => None,
            }
        } else {
            Some(self.intern(s))
        }
    }

    /// The string that the handle `h` stands for, where this pool gave it
    /// out.
    pub fn resolve(&self, h: Istr) -> (r: Option<&str>)
        ensures
            match r {
                Some(s) => self.knows(h) && s@ == self.text(h),
                None => !self.knows(h),
            },
    {
        interner_resolve(&self.inner, h.id)
    }

    /// Gives back the capacity that the pool does not use.
    pub fn shrink(&mut self)
        ensures
            final(self)@ == old(self)@,
    {
        proof {
            use_type_invariant(&*self);
        }
        let mut held = Pool::new();
        std::mem::swap(self, &mut held);
        let Pool { mut inner } = held;
        interner_shrink_to_fit(&mut inner);
        *self = Pool { inner };
    }
}

/// A new, empty pool.
pub fn new_interner() -> (p: Pool)
    ensures
        p.wf(),
        p@.len() == 0,
{
    Pool::new()
}

/// `later` holds every string of `earlier` under the handle it had.
#[verifier::opaque]
pub open spec fn extends(later: Seq<Seq<char>>, earlier: Seq<Seq<char>>) -> bool {
    earlier.len() <= later.len() && forall|k: int|
        0 <= k < earlier.len() ==> #[trigger] later[k] == earlier[k]
}

/// Interning is idempotent: a second `intern` of a string leaves the pool
/// what the first made it, and returns the handle that the first returned,
/// which is the only handle of the string.
pub proof fn lemma_intern_idempotent(pool: Seq<Seq<char>>, s: Seq<char>, first: Istr, second: Istr)
    requires
        distinct(pool),
        first.id < after_intern(pool, s).len(),
        after_intern(pool, s)[first.id as int] == s,
        second.id < after_intern(after_intern(pool, s), s).len(),
        after_intern(after_intern(pool, s), s)[second.id as int] == s,
    ensures
        after_intern(after_intern(pool, s), s) == after_intern(pool, s),
        distinct(after_intern(pool, s)),
        first == second,
{
    let once = after_intern(pool, s);
    if !pool.contains(s) {
        assert(once[pool.len() as int] == s);
    }
    assert(once.contains(s));
}

/// The texts that a list of handles stands for in `pool`.
pub open spec fn texts_of(pool: Seq<Seq<char>>, hs: Seq<Istr>) -> Seq<Seq<char>> {
    hs.map_values(|h: Istr| pool[h.id as int])
}

/// `pool` gave out every handle of `hs`.
pub open spec fn all_known(pool: Seq<Seq<char>>, hs: Seq<Istr>) -> bool {
    forall|k: int| 0 <= k < hs.len() ==> (#[trigger] hs[k]).id < pool.len()
}

/// Every pool extends itself.
pub proof fn lemma_extends_reflexive(pool: Seq<Seq<char>>)
    ensures
        extends(pool, pool),
{
    reveal(extends);
}

/// A pool that extends one which extends a third extends the third.
pub proof fn lemma_extends_transitive(
    last: Seq<Seq<char>>,
    middle: Seq<Seq<char>>,
    first: Seq<Seq<char>>,
)
    requires
        extends(last, middle),
        extends(middle, first),
    ensures
        extends(last, first),
{
    reveal(extends);
}

/// A handle keeps its text when the pool grows.
pub proof fn lemma_text_stays(later: Seq<Seq<char>>, earlier: Seq<Seq<char>>, h: Istr)
    requires
        extends(later, earlier),
        h.id < earlier.len(),
    ensures
        h.id < later.len(),
        later[h.id as int] == earlier[h.id as int],
{
    reveal(extends);
}

/// Handles keep their texts when the pool grows.
pub proof fn lemma_texts_stay(later: Seq<Seq<char>>, earlier: Seq<Seq<char>>, hs: Seq<Istr>)
    requires
        extends(later, earlier),
        all_known(earlier, hs),
    ensures
        all_known(later, hs),
        texts_of(later, hs) == texts_of(earlier, hs),
{
    reveal(extends);
    assert(texts_of(later, hs) =~= texts_of(earlier, hs));
}

/// Interns `s`, where there is one, in a pool that has room for it.
pub fn intern_opt(pool: &mut Pool, s: Option<&str>) -> (r: Option<Istr>)
    requires
        s is Some ==> old(pool)@.len() < pool_limit(),
    ensures
        final(pool).wf(),
        extends(final(pool)@, old(pool)@),
        final(pool)@ == after_interns(
            old(pool)@,
            opt_item(
                match s {
                    Some(x) => Some(x@),
                    None => None,
                },
            ),
        ),
        match r {
            Some(h) => s is Some && final(pool).knows(h) && final(pool).text(h) == s.unwrap()@,
            None => s is None,
        },
{
    proof {
        use_type_invariant(&*pool);
        reveal(extends);
    }
    match s {
        Some(x) => {
            proof {
                lemma_after_interns_one(pool@, x@);
            }
            Some(pool.intern(x))
        },
        None => None,
    }
}

/// Interns every string of `items`, in their order, in a pool that has room
/// for all of them.
pub fn intern_list(pool: &mut Pool, items: &Vec<&str>) -> (hs: Vec<Istr>)
    requires
        old(pool)@.len() + items@.len() <= pool_limit(),
    ensures
        final(pool).wf(),
        extends(final(pool)@, old(pool)@),
        final(pool)@ == after_interns(old(pool)@, strs_view(items@)),
        all_known(final(pool)@, hs@),
        texts_of(final(pool)@, hs@) == strs_view(items@),
{
    let mut hs: Vec<Istr> = Vec::new();
    let ghost start = pool@;
    let mut i: usize = 0;
    proof {
        use_type_invariant(&*pool);
        reveal(extends);
        assert(strs_view(items@).take(0) =~= Seq::<Seq<char>>::empty());
    }
    while i < items.len()
        invariant
            i <= items@.len(),
            pool.wf(),
            extends(pool@, start),
            pool@ == after_interns(start, strs_view(items@).take(i as int)),
            start.len() + items@.len() <= pool_limit(),
            hs@.len() == i,
            all_known(pool@, hs@),
            forall|k: int| 0 <= k < i ==> pool@[(#[trigger] hs@[k]).id as int] == items@[k]@,
        decreases items@.len() - i,
    {
        let ghost before = pool@;
        proof {
            lemma_after_interns_len(start, strs_view(items@).take(i as int));
        }
        let h = pool.intern(items[i]);
        proof {
            reveal(extends);
            assert(extends(pool@, before));
            assert(strs_view(items@).take(i + 1).drop_last() =~= strs_view(items@).take(i as int));
        }
        hs.push(h);
        i = i + 1;
    }
    proof {
        assert(texts_of(pool@, hs@) =~= strs_view(items@));
        assert(strs_view(items@).take(i as int) =~= strs_view(items@));
    }
    hs
}

/// Resolving a handle in one step, for handles that the pool gave out.
pub trait QuickResolve: Sized {
    /// The handle that is resolved.
    spec fn handle(self) -> Istr;

    /// The string that the handle stands for.
    fn r<'a>(self, pool: &'a Pool) -> (s: &'a str)
        requires
            pool.knows(self.handle()),
        ensures
            s@ == pool.text(self.handle()),
    ;
}

impl QuickResolve for Istr {
    open spec fn handle(self) -> Istr {
        self
    }

    fn r<'a>(self, pool: &'a Pool) -> (s: &'a str) {
        match pool.resolve(self) {
            Some(s) => s,
            None => vstd::pervasive::unreached(),
        }
    }
}

/// Interns every name of `names`, where the pool has room for all of them;
/// leaves the pool unchanged where it has not.
pub fn intern_names(pool: &mut Pool, names: &Vec<String>) -> (r: Option<Vec<Istr>>)
    ensures
        final(pool).wf(),
        extends(final(pool)@, old(pool)@),
        r is Some <==> old(pool)@.len() + names@.len() <= pool_limit(),
        match r {
            Some(hs) => all_known(final(pool)@, hs@) && texts_of(final(pool)@, hs@)
                == strings_view(names@) && final(pool)@ == after_interns(
                old(pool)@,
                strings_view(names@),
            ),
            None => final(pool)@ == old(pool)@,
        },
{
    proof {
        use_type_invariant(&*pool);
    }
    if names.len() > 4294967295 || pool.len() > 4294967295 - names.len() {
        proof {
            lemma_extends_reflexive(pool@);
        }
        return None;
    }
    let mut items: Vec<&str> = Vec::new();
    let mut k: usize = 0;
    while k < names.len()
        invariant
            k <= names@.len(),
            items@.len() == k,
            forall|j: int| 0 <= j < k ==> (#[trigger] items@[j])@ == names@[j]@,
        decreases names@.len() - k,
    {
        items.push(names[k].as_str());
        k = k + 1;
    }
    let hs = intern_list(pool, &items);
    proof {
        assert(strs_view(items@) =~= strings_view(names@));
    }
    Some(hs)
}

} // verus!
