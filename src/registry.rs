//! The command registry: which command names are known, and the handler
//! slot of each. The host keeps the handlers themselves, indexed by slot;
//! the registry also serves as a source of completions.
use vstd::prelude::*;
use vstd::string::StringSliceAdditionalSpecFns;

use crate::autocomplete::{starts_with, Autocomplete};
use crate::line::copy_bytes;
use crate::line::slice_of;

verus! {

/// How many commands the registry can hold.
pub const TOTAL_CMDS: usize = 16;

#[verifier::external_type_specification]
#[verifier::external_body]
#[verifier::reject_recursive_types(K)]
#[verifier::reject_recursive_types(V)]
#[verifier::reject_recursive_types(S)]
pub struct ExIndexMap<K, V, S, const N: usize>(heapless::IndexMap<K, V, S, N>);

#[verifier::external_type_specification]
#[verifier::external_body]
#[verifier::reject_recursive_types(H)]
pub struct ExBuildHasherDefault<H>(hash32::BuildHasherDefault<H>);

#[verifier::external_type_specification]
#[verifier::external_body]
pub struct ExFnvHasher(hash32::FnvHasher);

/// The entries of a command table, in the map's order: the bytes of each
/// name and its handler slot.
pub uninterp spec fn command_table(m: heapless::FnvIndexMap<&'static str, usize, TOTAL_CMDS>) -> Seq<
    (Seq<u8>, usize),
>;

/// The position of the entry named `name` in `s`, if any.
pub open spec fn has_name(s: Seq<(Seq<u8>, usize)>, name: Seq<u8>, i: int) -> bool {
    0 <= i < s.len() && s[i].0 == name
}

/// Whether some entry of `s` is named `name`.
pub open spec fn named(s: Seq<(Seq<u8>, usize)>, name: Seq<u8>) -> bool {
    exists|i: int| has_name(s, name, i)
}

/// No two entries share a name.
pub open spec fn unique_names(s: Seq<(Seq<u8>, usize)>) -> bool {
    forall|i: int, j: int| 0 <= i < s.len() && 0 <= j < s.len() && i != j ==> s[i].0 != s[j].0
}

/// Relies on `heapless::FnvIndexMap::new`: the map starts empty.
#[verifier::external_body]
fn table_new() -> (r: heapless::FnvIndexMap<&'static str, usize, TOTAL_CMDS>)
    ensures
        command_table(r) == Seq::<(Seq<u8>, usize)>::empty(),
{
    heapless::FnvIndexMap::new()
}

/// Relies on `heapless::IndexMap::insert`: an existing key gets the new
/// value in place; a new key is added at the end unless the map is full,
/// which is the only failure.
#[verifier::external_body]
fn table_insert(
    m: &mut heapless::FnvIndexMap<&'static str, usize, TOTAL_CMDS>,
    name: &'static str,
    slot: usize,
) -> (r: bool)
    ensures
        forall|i: int|
            has_name(command_table(*old(m)), name.spec_bytes(), i) ==> r && command_table(*final(m))
                == command_table(*old(m)).update(i, (name.spec_bytes(), slot)),
        !named(command_table(*old(m)), name.spec_bytes()) ==> (r <==> command_table(*old(m)).len()
            < TOTAL_CMDS),
        !named(command_table(*old(m)), name.spec_bytes()) && r ==> command_table(*final(m))
            == command_table(*old(m)).push((name.spec_bytes(), slot)),
        !r ==> command_table(*final(m)) == command_table(*old(m)),
{
    m.insert(name, slot).is_ok()
}

/// Relies on `heapless::IndexMap::remove`: the entry with that key, if any,
/// is swapped with the last one and dropped.
#[verifier::external_body]
fn table_remove(m: &mut heapless::FnvIndexMap<&'static str, usize, TOTAL_CMDS>, name: &str)
    ensures
        forall|i: int|
            has_name(command_table(*old(m)), name.spec_bytes(), i) ==> command_table(*final(m))
                == command_table(*old(m)).update(i, command_table(*old(m)).last()).drop_last(),
        !named(command_table(*old(m)), name.spec_bytes()) ==> command_table(*final(m))
            == command_table(*old(m)),
{
    m.remove(name);
}

/// Relies on `heapless::IndexMap::get`: the value of the entry with that
/// key, if any.
#[verifier::external_body]
fn table_get(m: &heapless::FnvIndexMap<&'static str, usize, TOTAL_CMDS>, name: &str) -> (r: Option<
    usize,
>)
    ensures
        r is Some <==> named(command_table(*m), name.spec_bytes()),
        forall|i: int|
            has_name(command_table(*m), name.spec_bytes(), i) ==> r == Some(command_table(*m)[i].1),
{
    m.get(name).copied()
}

/// Relies on `heapless::IndexMap::iter`: the entries in the map's order.
#[verifier::external_body]
fn table_entry(m: &heapless::FnvIndexMap<&'static str, usize, TOTAL_CMDS>, index: usize) -> (r:
    Option<(&'static str, usize)>)
    ensures
        r is Some <==> index < command_table(*m).len(),
        r is Some ==> index < TOTAL_CMDS,
        r matches Some(e) ==> e.0.spec_bytes() == command_table(*m)[index as int].0 && e.1
            == command_table(*m)[index as int].1,
{
    m.iter().nth(index).map(|(k, v)| (*k, *v))
}

/// The rest of the first name in `s` that starts with `p`; nothing for an
/// empty `p`.
pub open spec fn first_command_completion(s: Seq<(Seq<u8>, usize)>, p: Seq<u8>) -> Option<Seq<u8>>
    decreases s.len(),
{
    if p.len() == 0 || s.len() == 0 {
        None
    } else if starts_with(s[0].0, p) {
        Some(s[0].0.subrange(p.len() as int, s[0].0.len() as int))
    } else {
        first_command_completion(s.drop_first(), p)
    }
}

/// No completion is offered for an empty prefix.
pub proof fn lemma_empty_prefix_registry(s: Seq<(Seq<u8>, usize)>)
    ensures
        first_command_completion(s, Seq::empty()) is None,
{
}

/// The registry of shell commands.
pub struct SevenShellEnv {
    inner: heapless::FnvIndexMap<&'static str, usize, TOTAL_CMDS>,
}

impl SevenShellEnv {
    /// The registered commands, in the registry's order.
    pub closed spec fn commands(&self) -> Seq<(Seq<u8>, usize)> {
        command_table(self.inner)
    }

    /// The registry's invariant: names are unique and fit.
    pub open spec fn wf(&self) -> bool {
        unique_names(self.commands()) && self.commands().len() <= TOTAL_CMDS
    }

    /// An empty registry.
    pub fn new() -> (r: Self)
        ensures
            r.wf(),
            r.commands() == Seq::<(Seq<u8>, usize)>::empty(),
    {
        SevenShellEnv { inner: table_new() }
    }

    /// Registers `cmd_name` with handler slot `handler`, replacing the slot
    /// of a command of that name. Fails, changing nothing, when the name is
    /// new and the registry is full.
    pub fn register_cmd(&mut self, cmd_name: &'static str, handler: usize) -> (r: bool)
        requires
            old(self).wf(),
        ensures
            final(self).wf(),
            named(old(self).commands(), cmd_name.spec_bytes()) ==> r,
            !named(old(self).commands(), cmd_name.spec_bytes()) ==> (r <==> old(self).commands().len()
                < TOTAL_CMDS),
            r ==> named(final(self).commands(), cmd_name.spec_bytes()),
            r ==> forall|i: int|
                has_name(final(self).commands(), cmd_name.spec_bytes(), i)
                    ==> final(self).commands()[i].1 == handler,
            r ==> forall|n: Seq<u8>|
                n != cmd_name.spec_bytes() ==> (named(final(self).commands(), n) <==> named(
                    old(self).commands(),
                    n,
                )),
            !r ==> final(self).commands() == old(self).commands(),
    {
        let ghost s = self.commands();
        let ghost key = cmd_name.spec_bytes();
        let r = table_insert(&mut self.inner, cmd_name, handler);
        proof {
            let t = self.commands();
            if named(s, key) {
                let i = choose|i: int| has_name(s, key, i);
                assert(t == s.update(i, (key, handler)));
                assert(has_name(t, key, i));
                assert forall|n: Seq<u8>| n != key implies (named(t, n) <==> named(s, n)) by {
                    if named(t, n) {
                        let j = choose|j: int| has_name(t, n, j);
                        assert(has_name(s, n, j));
                    }
                    if named(s, n) {
                        let j = choose|j: int| has_name(s, n, j);
                        assert(has_name(t, n, j));
                    }
                }
            } else if r {
                assert(has_name(t, key, s.len() as int));
                assert forall|i: int, j: int| 0 <= i < t.len() && 0 <= j < t.len() && i != j implies t[i].0
                    != t[j].0 by {
                    if i == s.len() {
                        assert(!has_name(s, key, j));
                    } else if j == s.len() {
                        assert(!has_name(s, key, i));
                    }
                }
                assert forall|n: Seq<u8>| n != key implies (named(t, n) <==> named(s, n)) by {
                    if named(t, n) {
                        let j = choose|j: int| has_name(t, n, j);
                        assert(has_name(s, n, j));
                    }
                    if named(s, n) {
                        let j = choose|j: int| has_name(s, n, j);
                        assert(has_name(t, n, j));
                    }
                }
            }
        }
        r
    }

    /// Removes the command named `cmd_name`, if there is one.
    pub fn unregister_cmd(&mut self, cmd_name: &str)
        requires
            old(self).wf(),
        ensures
            final(self).wf(),
            !named(final(self).commands(), cmd_name.spec_bytes()),
            forall|n: Seq<u8>|
                n != cmd_name.spec_bytes() ==> (named(final(self).commands(), n) <==> named(
                    old(self).commands(),
                    n,
                )),
            forall|n: Seq<u8>, i: int, j: int|
                has_name(old(self).commands(), n, i) && has_name(final(self).commands(), n, j)
                    ==> old(self).commands()[i].1 == final(self).commands()[j].1,
    {
        let ghost s = self.commands();
        let ghost key = cmd_name.spec_bytes();
        table_remove(&mut self.inner, cmd_name);
        proof {
            let t = self.commands();
            if named(s, key) {
                let i = choose|i: int| has_name(s, key, i);
                let last = s.len() - 1;
                assert(t == s.update(i, s.last()).drop_last());
                // position in `s` of the entry now at `j` in `t`
                assert forall|j: int| 0 <= j < t.len() implies #[trigger] t[j] == s[if j == i { last } else { j }] by {}
                assert(!named(t, key)) by {
                    if named(t, key) {
                        let j = choose|j: int| has_name(t, key, j);
                        let k = if j == i { last } else { j };
                        assert(s[k].0 == key);
                        assert(k != i);
                    }
                }
                assert forall|a: int, b: int| 0 <= a < t.len() && 0 <= b < t.len() && a != b implies t[a].0
                    != t[b].0 by {
                    let ka = if a == i { last } else { a };
                    let kb = if b == i { last } else { b };
                    assert(t[a] == s[ka]);
                    assert(t[b] == s[kb]);
                }
                assert forall|n: Seq<u8>| n != key implies (named(t, n) <==> named(s, n)) by {
                    if named(t, n) {
                        let j = choose|j: int| has_name(t, n, j);
                        let k = if j == i { last } else { j };
                        assert(has_name(s, n, k));
                    }
                    if named(s, n) {
                        let k = choose|k: int| has_name(s, n, k);
                        assert(k != i);
                        let j = if k == last { i } else { k };
                        assert(has_name(t, n, j));
                    }
                }
                assert forall|n: Seq<u8>, a: int, b: int|
                    has_name(s, n, a) && has_name(t, n, b) implies s[a].1 == t[b].1 by {
                    let k = if b == i { last } else { b };
                    assert(t[b] == s[k]);
                    assert(s[k].0 == n);
                }
            } else {
                assert forall|n: Seq<u8>, a: int, b: int|
                    has_name(s, n, a) && has_name(t, n, b) implies s[a].1 == t[b].1 by {}
            }
        }
    }

    /// The handler slot of the command named `cmd`, if it is registered.
    pub fn handler_of(&self, cmd: &str) -> (r: Option<usize>)
        requires
            self.wf(),
        ensures
            r is Some <==> named(self.commands(), cmd.spec_bytes()),
            forall|i: int| has_name(self.commands(), cmd.spec_bytes(), i) ==> r == Some(self.commands()[i].1),
    {
        table_get(&self.inner, cmd)
    }

    /// The rest of the first registered name that starts with `prefix`;
    /// nothing for an empty prefix.
    pub fn complete(&self, prefix: &str) -> (r: Option<Vec<u8>>)
        ensures
            match r {
                Some(s) => first_command_completion(self.commands(), prefix.spec_bytes()) == Some(s@),
                None => first_command_completion(self.commands(), prefix.spec_bytes()) is None,
            },
    {
        let p = prefix.as_bytes();
        if p.len() == 0 {
            return None;
        }
        let ghost s = self.commands();
        let mut i: usize = 0;
        assert(s.subrange(0, s.len() as int) =~= s);
        loop
            invariant
                s == self.commands(),
                p@.len() > 0,
                p@ == prefix.spec_bytes(),
                i <= s.len(),
                first_command_completion(s, p@) == first_command_completion(
                    s.subrange(i as int, s.len() as int),
                    p@,
                ),
            decreases s.len() - i,
        {
            match table_entry(&self.inner, i) {
                None => {
                    assert(s.subrange(i as int, s.len() as int).len() == 0);
                    return None;
                },
                Some((name, _)) => {
                    let b = name.as_bytes();
                    let ghost rest = s.subrange(i as int, s.len() as int);
                    assert(rest[0].0 == b@);
                    assert(rest.drop_first() =~= s.subrange(i + 1, s.len() as int));
                    if crate::autocomplete::has_prefix(b, p) {
                        let r = copy_bytes(slice_of(b, p.len(), b.len()));
                        return Some(r);
                    }
                },
            }
            i = i + 1;
        }
    }
}

impl Autocomplete for SevenShellEnv {
    open spec fn suggestion(&self, prefix: Seq<u8>) -> Option<Seq<u8>> {
        first_command_completion(self.commands(), prefix)
    }

    fn suggest(&self, prefix: &str) -> (r: Option<Vec<u8>>) {
        self.complete(prefix)
    }
}

} // verus!
