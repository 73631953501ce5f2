//! The host's vectors (`soroban_sdk::Vec`), as the contracts keep token
//! lists and rankings in them.
//!
//! A host vector is a handle to a value the host holds, and reading an item
//! converts it to the element type. The lists here keep their host vector in
//! a private field that only this module's functions build and change, each
//! by putting items of the element type in; so every item converts, and a
//! vector taken from elsewhere cannot stand in a list.

use vstd::prelude::*;
use soroban_sdk::Env;
use crate::types::Addr;

verus! {

/// `soroban_sdk::Vec`, carried through opaque.
#[verifier::external_type_specification]
#[verifier::external_body]
#[verifier::reject_recursive_types(T)]
pub struct ExHostVec<T>(soroban_sdk::Vec<T>);

/// The addresses a host vector of addresses holds, in order.
pub uninterp spec fn addr_list(v: soroban_sdk::Vec<u64>) -> Seq<u64>;

/// The (address, volume) entries a host vector holds, in order.
pub uninterp spec fn volume_list(v: soroban_sdk::Vec<(u64, i128)>) -> Seq<(u64, i128)>;

/// A list of addresses kept in a host vector.
pub struct TokenList {
    inner: soroban_sdk::Vec<u64>,
}

/// A list of (address, volume) entries kept in a host vector.
pub struct RankingList {
    inner: soroban_sdk::Vec<(u64, i128)>,
}

impl View for TokenList {
    type V = Seq<Addr>;

    closed spec fn view(&self) -> Seq<Addr> {
        addr_list(self.inner)
    }
}

impl View for RankingList {
    type V = Seq<(Addr, i128)>;

    closed spec fn view(&self) -> Seq<(Addr, i128)> {
        volume_list(self.inner)
    }
}

/// `soroban_sdk::Vec::new`: an empty vector.
#[verifier::external_body]
fn token_list_new(env: &Env) -> (l: TokenList)
    ensures
        addr_list(l.inner) == Seq::<u64>::empty(),
{
    TokenList { inner: soroban_sdk::Vec::new(env) }
}

/// `soroban_sdk::Vec::len`: the number of items.
#[verifier::external_body]
fn token_list_len(l: &TokenList) -> (n: u32)
    ensures
        n == addr_list(l.inner).len(),
{
    l.inner.len()
}

/// `soroban_sdk::Vec::get_unchecked`: the item at position `i`, which must
/// be in bounds (the host aborts otherwise). The item was put in as a `u64`,
/// so it converts back.
#[verifier::external_body]
fn token_list_get(l: &TokenList, i: u32) -> (x: u64)
    requires
        i < addr_list(l.inner).len(),
    ensures
        x == addr_list(l.inner)[i as int],
{
    l.inner.get_unchecked(i)
}

/// `soroban_sdk::Vec::push_back`: appends `x`; the host holds at most
/// `u32::MAX` items.
#[verifier::external_body]
fn token_list_push(l: &mut TokenList, x: u64)
    requires
        addr_list(old(l).inner).len() < u32::MAX,
    ensures
        addr_list(final(l).inner) == addr_list(old(l).inner).push(x),
{
    l.inner.push_back(x)
}

/// `Clone::clone` of `soroban_sdk::Vec`: a second handle to the same items.
#[verifier::external_body]
fn token_list_clone(l: &TokenList) -> (c: TokenList)
    ensures
        addr_list(c.inner) == addr_list(l.inner),
{
    TokenList { inner: l.inner.clone() }
}

/// `soroban_sdk::Vec::new`: an empty vector.
#[verifier::external_body]
fn ranking_list_new(env: &Env) -> (l: RankingList)
    ensures
        volume_list(l.inner) == Seq::<(u64, i128)>::empty(),
{
    RankingList { inner: soroban_sdk::Vec::new(env) }
}

/// `soroban_sdk::Vec::len`: the number of entries.
#[verifier::external_body]
fn ranking_list_len(l: &RankingList) -> (n: u32)
    ensures
        n == volume_list(l.inner).len(),
{
    l.inner.len()
}

/// `soroban_sdk::Vec::get_unchecked`: the entry at position `i`, which must
/// be in bounds (the host aborts otherwise). The entry was put in as a
/// `(u64, i128)`, so it converts back.
#[verifier::external_body]
fn ranking_list_get(l: &RankingList, i: u32) -> (x: (u64, i128))
    requires
        i < volume_list(l.inner).len(),
    ensures
        x == volume_list(l.inner)[i as int],
{
    l.inner.get_unchecked(i)
}

/// `soroban_sdk::Vec::insert`: puts `x` at position `i`, shifting the rest;
/// `i` may be at most the length (the host aborts otherwise), and the host
/// holds at most `u32::MAX` entries.
#[verifier::external_body]
fn ranking_list_insert(l: &mut RankingList, i: u32, x: (u64, i128))
    requires
        i <= volume_list(old(l).inner).len(),
        volume_list(old(l).inner).len() < u32::MAX,
    ensures
        volume_list(final(l).inner) == volume_list(old(l).inner).insert(i as int, x),
{
    l.inner.insert(i, x)
}

/// `soroban_sdk::Vec::pop_back`: removes the last entry, if any. The entry
/// was put in as a `(u64, i128)`, so it converts back.
#[verifier::external_body]
fn ranking_list_pop(l: &mut RankingList) -> (x: Option<(u64, i128)>)
    ensures
        volume_list(old(l).inner).len() == 0 ==> x is None && volume_list(final(l).inner) == volume_list(old(l).inner),
        volume_list(old(l).inner).len() > 0 ==> x == Some(volume_list(old(l).inner).last())
            && volume_list(final(l).inner) == volume_list(old(l).inner).drop_last(),
{
    l.inner.pop_back()
}

impl TokenList {
    /// An empty list.
    pub fn new(env: &Env) -> (l: TokenList)
        ensures
            l@ == Seq::<Addr>::empty(),
    {
        token_list_new(env)
    }

    /// The number of addresses.
    pub fn len(&self) -> (n: u32)
        ensures
            n == self@.len(),
    {
        token_list_len(self)
    }

    /// The address at position `i`.
    pub fn get(&self, i: u32) -> (x: Addr)
        requires
            i < self@.len(),
        ensures
            x == self@[i as int],
    {
        token_list_get(self, i)
    }

    /// Appends `x`.
    pub fn push(&mut self, x: Addr)
        requires
            old(self)@.len() < u32::MAX,
        ensures
            final(self)@ == old(self)@.push(x),
    {
        token_list_push(self, x)
    }

    /// A second list with the same addresses.
    pub fn duplicate(&self) -> (c: TokenList)
        ensures
            c@ == self@,
    {
        token_list_clone(self)
    }
}

impl RankingList {
    /// An empty list.
    pub fn new(env: &Env) -> (l: RankingList)
        ensures
            l@ == Seq::<(Addr, i128)>::empty(),
    {
        ranking_list_new(env)
    }

    /// The number of entries.
    pub fn len(&self) -> (n: u32)
        ensures
            n == self@.len(),
    {
        ranking_list_len(self)
    }

    /// The entry at position `i`.
    pub fn get(&self, i: u32) -> (x: (Addr, i128))
        requires
            i < self@.len(),
        ensures
            x == self@[i as int],
    {
        ranking_list_get(self, i)
    }

    /// Puts `x` at position `i`, shifting the rest.
    pub fn insert(&mut self, i: u32, x: (Addr, i128))
        requires
            i <= old(self)@.len(),
            old(self)@.len() < u32::MAX,
        ensures
            final(self)@ == old(self)@.insert(i as int, x),
    {
        ranking_list_insert(self, i, x)
    }

    /// Removes the last entry, if any.
    pub fn pop(&mut self) -> (x: Option<(Addr, i128)>)
        ensures
            old(self)@.len() == 0 ==> x is None && final(self)@ == old(self)@,
            old(self)@.len() > 0 ==> x == Some(old(self)@.last()) && final(self)@ == old(self)@.drop_last(),
    {
        ranking_list_pop(self)
    }
}

} // verus!
