//! The global registry: the advertised interface instances, each under a
//! process-unique name, replayed in insertion order to new registry binds.

use vstd::prelude::*;
use crate::client::{Client, ClientError, EventMsg, Interface};

verus! {

/// One advertised global.
#[derive(Copy, Clone, Debug, PartialEq, Eq, Structural)]
pub struct GlobalEntry {
    pub name: u32,
    pub interface: Interface,
    pub version: u32,
    pub singleton: bool,
}

/// The registry: entries in insertion order, names handed out in increasing
/// order starting at one.
pub struct Registry {
    pub next_name: u32,
    pub entries: Vec<GlobalEntry>,
}

/// Whether the entries hold a global of this name.
pub open spec fn has_global(entries: Seq<GlobalEntry>, name: u32) -> bool {
    exists|k: int| 0 <= k < entries.len() && entries[k].name == name
}

/// The entry carrying this name, when one exists.
pub open spec fn global_named(entries: Seq<GlobalEntry>, name: u32) -> GlobalEntry {
    entries[choose|k: int| 0 <= k < entries.len() && entries[k].name == name]
}

impl Registry {
    /// Names are unique and below the allocator.
    pub open spec fn wf(&self) -> bool {
        &&& forall|a: int, b: int|
            0 <= a < b < self.entries@.len() ==> (#[trigger] self.entries@[a]).name != (
            #[trigger] self.entries@[b]).name
        &&& forall|a: int|
            0 <= a < self.entries@.len() ==> (#[trigger] self.entries@[a]).name < self.next_name
        &&& self.next_name >= 1
    }

    pub fn new() -> (r: Self)
        ensures
            r.wf(),
            r.entries@.len() == 0,
            r.next_name == 1,
    {
        Registry { next_name: 1, entries: Vec::new() }
    }

    /// Advertises a new global under a fresh name.
    pub fn add(&mut self, interface: Interface, version: u32, singleton: bool) -> (name: u32)
        requires
            old(self).wf(),
            old(self).next_name < u32::MAX,
        ensures
            final(self).wf(),
            name == old(self).next_name,
            final(self).next_name == old(self).next_name + 1,
            final(self).entries@ == old(self).entries@.push(
                GlobalEntry { name, interface, version, singleton },
            ),
            !has_global(old(self).entries@, name),
            has_global(final(self).entries@, name),
            global_named(final(self).entries@, name) == (GlobalEntry {
                name,
                interface,
                version,
                singleton,
            }),
    {
        let name = self.next_name;
        self.next_name = self.next_name + 1;
        self.entries.push(GlobalEntry { name, interface, version, singleton });
        proof {
            let post = self.entries@;
            assert(post[post.len() - 1].name == name);
            let k = choose|k: int| 0 <= k < post.len() && post[k].name == name;
            assert(post[k].name == name);
            assert(k == post.len() - 1);
        }
        name
    }

    /// Withdraws the global with this name. Fails exactly when no global
    /// carries it.
    pub fn remove(&mut self, name: u32) -> (r: Result<GlobalEntry, ()>)
        requires
            old(self).wf(),
        ensures
            final(self).wf(),
            final(self).next_name == old(self).next_name,
            r is Ok <==> has_global(old(self).entries@, name),
            r is Err ==> final(self).entries@ == old(self).entries@,
            r is Ok ==> {
                &&& r->Ok_0 == global_named(old(self).entries@, name)
                &&& !has_global(final(self).entries@, name)
                &&& forall|n2: u32|
                    n2 != name ==> (has_global(final(self).entries@, n2) <==> has_global(
                        old(self).entries@,
                        n2,
                    ))
                &&& forall|n2: u32|
                    n2 != name && has_global(final(self).entries@, n2) ==> global_named(
                        final(self).entries@,
                        n2,
                    ) == global_named(old(self).entries@, n2)
                &&& final(self).entries@.len() == old(self).entries@.len() - 1
            },
    {
        let mut k: usize = 0;
        while k < self.entries.len()
            invariant
                k <= self.entries@.len(),
                forall|j: int| 0 <= j < k ==> (#[trigger] self.entries@[j]).name != name,
                self.entries@ == old(self).entries@,
                self.next_name == old(self).next_name,
                self.wf(),
            decreases self.entries@.len() - k,
        {
            if self.entries[k].name == name {
                let e = self.entries.remove(k);
                proof {
                    let pre = old(self).entries@;
                    let post = self.entries@;
                    assert(e == global_named(pre, name)) by {
                        let c = choose|j: int| 0 <= j < pre.len() && pre[j].name == name;
                        assert(pre[c].name == name && pre[k as int].name == name);
                        assert(c == k as int);
                    }
                    assert forall|j: int| 0 <= j < post.len() implies (#[trigger] post[j]).name
                        != name by {
                        if j < k {
                            assert(post[j] == pre[j]);
                        } else {
                            assert(post[j] == pre[j + 1]);
                        }
                    }
                    assert(!has_global(post, name));
                    assert forall|n2: u32| n2 != name implies (has_global(post, n2) <==> has_global(
                        pre,
                        n2,
                    )) by {
                        if has_global(pre, n2) {
                            let j = choose|j: int| 0 <= j < pre.len() && pre[j].name == n2;
                            assert(j != k as int);
                            if j < k as int {
                                assert(post[j].name == n2);
                            } else {
                                assert(post[j - 1].name == n2);
                            }
                        }
                        if has_global(post, n2) {
                            let j = choose|j: int| 0 <= j < post.len() && post[j].name == n2;
                            if j < k as int {
                                assert(pre[j].name == n2);
                            } else {
                                assert(pre[j + 1].name == n2);
                            }
                        }
                    }
                    assert forall|n2: u32|
                        n2 != name && has_global(post, n2) implies global_named(post, n2)
                        == global_named(pre, n2) by {
                        let j = choose|j: int| 0 <= j < post.len() && post[j].name == n2;
                        let j0 = if j < k as int { j } else { j + 1 };
                        assert(post[j] == pre[j0]);
                        let ja = choose|a: int| 0 <= a < post.len() && post[a].name == n2;
                        let jb = choose|b: int| 0 <= b < pre.len() && pre[b].name == n2;
                        assert(post[ja].name == n2 && pre[jb].name == n2);
                        assert(ja == j) by {
                            if ja != j {
                                let a0 = if ja < k as int { ja } else { ja + 1 };
                                assert(pre[a0].name == n2 && pre[j0].name == n2);
                                assert(a0 == j0);
                            }
                        }
                        assert(jb == j0) by {
                            if jb != j0 {
                                assert(pre[jb].name == n2 && pre[j0].name == n2);
                            }
                        }
                    }
                    assert forall|a: int, b: int|
                        0 <= a < b < post.len() implies (#[trigger] post[a]).name != (
                    #[trigger] post[b]).name by {
                        let a0 = if a < k as int { a } else { a + 1 };
                        let b0 = if b < k as int { b } else { b + 1 };
                        assert(post[a] == pre[a0] && post[b] == pre[b0]);
                        assert(a0 < b0);
                    }
                }
                return Ok(e);
            }
            k = k + 1;
        }
        Err(())
    }

    /// Looks a global up by name.
    pub fn get(&self, name: u32) -> (r: Option<GlobalEntry>)
        requires
            self.wf(),
        ensures
            r is Some <==> has_global(self.entries@, name),
            r is Some ==> r->0 == global_named(self.entries@, name),
    {
        let mut k: usize = 0;
        while k < self.entries.len()
            invariant
                k <= self.entries@.len(),
                self.wf(),
                forall|j: int| 0 <= j < k ==> (#[trigger] self.entries@[j]).name != name,
            decreases self.entries@.len() - k,
        {
            if self.entries[k].name == name {
                proof {
                    let c = choose|j: int|
                        0 <= j < self.entries@.len() && self.entries@[j].name == name;
                    assert(self.entries@[c].name == name);
                    assert(c == k as int);
                }
                return Some(self.entries[k]);
            }
            k = k + 1;
        }
        None
    }

    /// Replays every advertised global to one client, oldest first, as the
    /// registry does on a new bind.
    pub fn replay(&self, client: &mut Client)
        requires
            old(client).inv(),
        ensures
            final(client).inv(),
            final(client).evq@ == old(client).evq@ + replay_events(self.entries@),
            final(client).objects@ == old(client).objects@,
            final(client).ops@ == old(client).ops@,
    {
        let mut k: usize = 0;
        proof {
            assert(self.entries@.skip(0) =~= self.entries@);
        }
        while k < self.entries.len()
            invariant
                old(client).inv(),
                client.inv(),
                k <= self.entries@.len(),
                client.evq@ + replay_events(self.entries@.skip(k as int)) == old(client).evq@
                    + replay_events(self.entries@),
                client.objects@ == old(client).objects@,
                client.ops@ == old(client).ops@,
            decreases self.entries@.len() - k,
        {
            let ghost suffix = self.entries@.skip(k as int);
            proof {
                assert(suffix[0] == self.entries@[k as int]);
                assert(suffix.skip(1) =~= self.entries@.skip(k as int + 1));
            }
            let e = self.entries[k];
            client.event(
                EventMsg::GlobalAdded { name: e.name, interface: e.interface, version: e.version },
            );
            proof {
                assert(client.evq@ + replay_events(self.entries@.skip(k as int + 1)) =~= old(
                    client,
                ).evq@ + replay_events(self.entries@));
            }
            k = k + 1;
        }
        proof {
            assert(self.entries@.skip(self.entries@.len() as int) =~= Seq::<GlobalEntry>::empty());
            assert(client.evq@ =~= old(client).evq@ + replay_events(self.entries@));
        }
    }

    /// Records a bind of the named global for one client: a singleton may be
    /// bound once per client, and the granted version is the smaller of the
    /// global's and the requested one.
    pub fn bind(&self, client: &mut Client, name: u32, requested_version: u32) -> (r: Result<
        (Interface, u32),
        ClientError,
    >)
        requires
            old(client).inv(),
            self.wf(),
        ensures
            final(client).inv(),
            r is Ok <==> has_global(self.entries@, name) && !(global_named(
                self.entries@,
                name,
            ).singleton && old(client).singletons_bound@.contains(name)),
            !has_global(self.entries@, name) ==> r == Err::<(Interface, u32), ClientError>(
                ClientError::InvalidObject(name),
            ),
            has_global(self.entries@, name) && global_named(self.entries@, name).singleton && old(
                client,
            ).singletons_bound@.contains(name) ==> r == Err::<(Interface, u32), ClientError>(
                ClientError::SingletonBound(name),
            ),
            r is Err ==> crate::client::state_eq(old(client), final(client)),
            r is Ok ==> {
                &&& r->Ok_0.0 == global_named(self.entries@, name).interface
                &&& r->Ok_0.1 == (if global_named(self.entries@, name).version
                    <= requested_version {
                    global_named(self.entries@, name).version
                } else {
                    requested_version
                })
                &&& final(client).singletons_bound@ == (if global_named(
                    self.entries@,
                    name,
                ).singleton {
                    old(client).singletons_bound@.push(name)
                } else {
                    old(client).singletons_bound@
                })
                &&& final(client).evq@ == old(client).evq@
                &&& final(client).objects@ == old(client).objects@
            },
    {
        let e = match self.get(name) {
            Some(e) => e,
            None => {
                return Err(ClientError::InvalidObject(name));
            },
        };
        if e.singleton {
            if contains_u32(&client.singletons_bound, name) {
                return Err(ClientError::SingletonBound(name));
            }
            client.note_singleton_bound(name);
        }
        let granted = if e.version <= requested_version {
            e.version
        } else {
            requested_version
        };
        Ok((e.interface, granted))
    }
}

/// The `global` events replaying these entries in order.
pub open spec fn replay_events(entries: Seq<GlobalEntry>) -> Seq<EventMsg>
    decreases entries.len(),
{
    if entries.len() == 0 {
        Seq::empty()
    } else {
        seq![
            EventMsg::GlobalAdded {
                name: entries[0].name,
                interface: entries[0].interface,
                version: entries[0].version,
            },
        ] + replay_events(entries.skip(1))
    }
}

/// Whether a vector of names holds the given one.
pub fn contains_u32(v: &Vec<u32>, x: u32) -> (r: bool)
    ensures
        r == v@.contains(x),
{
    let mut k: usize = 0;
    while k < v.len()
        invariant
            k <= v@.len(),
            forall|j: int| 0 <= j < k ==> v@[j] != x,
        decreases v@.len() - k,
    {
        if v[k] == x {
            return true;
        }
        k = k + 1;
    }
    proof {
        if v@.contains(x) {
            let j = choose|j: int| 0 <= j < v@.len() && v@[j] == x;
            assert(false);
        }
    }
    false
}

} // verus!
