//! The registry of running background servers, keyed by project path.
//!
//! The registry itself is a keyed store with replace-on-register
//! semantics; reading and writing its state file, normalizing paths and
//! probing daemons for liveness are I/O and stay with the surrounding
//! program, which hands the results in as plain values.

use vstd::prelude::*;

verus! {

/// One running daemon: its port, the project it serves, its process ID
/// when known, and when it was registered.
#[derive(Clone, Debug)]
pub struct DaemonInfo {
    pub port: u16,
    pub project_path: String,
    pub pid: Option<u32>,
    pub started_at: u64,
}

/// The registry could not read the clock.
#[derive(Clone, Copy, PartialEq, Eq, Structural, Debug)]
pub enum RegistryError {
    ClockUnavailable,
}

pub struct DaemonState {
    daemons: Vec<(String, DaemonInfo)>,
}

/// The first entry under `key`, if any.
pub open spec fn spec_find_entry(entries: Seq<(String, DaemonInfo)>, key: Seq<char>) -> Option<
    DaemonInfo,
>
    decreases entries.len(),
{
    if entries.len() == 0 {
        None
    } else if entries[0].0@ == key {
        Some(entries[0].1)
    } else {
        spec_find_entry(entries.drop_first(), key)
    }
}

/// Does `keys` hold `key`?
pub open spec fn spec_has_key(keys: Seq<String>, key: Seq<char>) -> bool {
    exists|i: int| 0 <= i < keys.len() && #[trigger] keys[i]@ == key
}

/// Relies on `std::time::SystemTime::now` and
/// `SystemTime::duration_since`: the seconds from the Unix epoch to the
/// current system time, or `None` when the clock reads earlier than the
/// epoch.  Nothing is promised of the value; it depends on the clock.
#[verifier::external_body]
fn unix_time_now() -> Option<u64> {
    std::time::SystemTime::now()
        .duration_since(std::time::SystemTime::UNIX_EPOCH)
        .ok()
        .map(|d| d.as_secs())
}

impl DaemonState {
    /// Every project path has at most one entry.
    pub closed spec fn wf(self) -> bool {
        forall|i: int, j: int|
            0 <= i < j < self.daemons@.len() ==> #[trigger] self.daemons@[i].0@ != #[trigger] self.daemons@[j].0@
    }

    /// The entry registered under `key`.
    pub closed spec fn spec_lookup(self, key: Seq<char>) -> Option<DaemonInfo> {
        spec_find_entry(self.daemons@, key)
    }

    /// All entries, in registration order.
    pub closed spec fn spec_entries(self) -> Seq<(String, DaemonInfo)> {
        self.daemons@
    }

    pub fn new() -> (r: DaemonState)
        ensures
            r.wf(),
            forall|key: Seq<char>| r.spec_lookup(key) is None,
    {
        let r = DaemonState { daemons: Vec::new() };
        proof {
            assert(forall|key: Seq<char>| spec_find_entry(r.daemons@, key) is None);
        }
        r
    }

    /// The index of the entry under `key`, if any.
    fn find_index(&self, project_path: &str) -> (r: Option<usize>)
        requires
            self.wf(),
        ensures
            match r {
                Some(i) => i < self.daemons@.len() && self.daemons@[i as int].0@ == project_path@
                    && self.spec_lookup(project_path@) == Some(self.daemons@[i as int].1),
                None => self.spec_lookup(project_path@) is None,
            },
    {
        let key = project_path.to_owned();
        let n = self.daemons.len();
        proof {
            assert(self.daemons@.skip(0) =~= self.daemons@);
        }
        let mut i: usize = 0;
        while i < n
            invariant
                0 <= i <= n,
                n == self.daemons@.len(),
                self.wf(),
                key@ == project_path@,
                spec_find_entry(self.daemons@, project_path@) == spec_find_entry(
                    self.daemons@.skip(i as int),
                    project_path@,
                ),
                forall|k: int| 0 <= k < i ==> #[trigger] self.daemons@[k].0@ != project_path@,
            decreases n - i,
        {
            proof {
                assert(self.daemons@.skip(i as int)[0] == self.daemons@[i as int]);
                assert(self.daemons@.skip(i as int).drop_first() =~= self.daemons@.skip(i + 1));
            }
            let entry_key = &self.daemons[i].0;
            let hit = entry_key.eq(&key);
            proof {
                assert(key@ == project_path@);
                assert(hit == (self.daemons@[i as int].0@ == project_path@));
            }
            if hit {
                return Some(i);
            }
            proof {
                assert(self.daemons@[i as int].0@ != project_path@);
                assert(spec_find_entry(self.daemons@.skip(i as int), project_path@)
                    == spec_find_entry(self.daemons@.skip(i + 1), project_path@));
            }
            i = i + 1;
        }
        proof {
            assert(self.daemons@.skip(n as int).len() == 0);
        }
        None
    }

    /// Register a daemon under `project_path` with an explicit
    /// registration time.  An existing entry for the same path is
    /// replaced; no other entry moves.
    pub fn register_daemon_at(
        &mut self,
        project_path: &str,
        port: u16,
        pid: Option<u32>,
        started_at: u64,
    )
        requires
            old(self).wf(),
        ensures
            final(self).wf(),
            match final(self).spec_lookup(project_path@) {
                Some(d) => d.port == port && d.pid == pid && d.started_at == started_at
                    && d.project_path@ == project_path@,
                None => false,
            },
            forall|key: Seq<char>|
                key != project_path@ ==> final(self).spec_lookup(key) == old(self).spec_lookup(
                    key,
                ),
    {
        let info = DaemonInfo {
            port,
            project_path: project_path.to_owned(),
            pid,
            started_at,
        };
        let key = project_path.to_owned();
        match self.find_index(project_path) {
            Some(i) => {
                let ghost pre = self.daemons@;
                self.daemons[i] = (key, info);
                proof {
                    let post = self.daemons@;
                    assert(post == pre.update(i as int, post[i as int]));
                    lemma_find_entry_update(pre, post, i as int, project_path@);
                }
            },
            None => {
                let ghost pre = self.daemons@;
                self.daemons.push((key, info));
                proof {
                    let post = self.daemons@;
                    assert(post == pre.push(post[post.len() - 1]));
                    lemma_find_entry_push(pre, post[post.len() - 1]);
                }
            },
        }
    }

    /// Register a daemon, stamping it with the current clock.  Fails
    /// only when the system clock cannot be read; the registry is then
    /// untouched.
    pub fn register_daemon(&mut self, project_path: &str, port: u16, pid: Option<u32>) -> (r:
        Result<(), RegistryError>)
        requires
            old(self).wf(),
        ensures
            final(self).wf(),
            match r {
                Ok(_) => {
                    &&& match final(self).spec_lookup(project_path@) {
                        Some(d) => d.port == port && d.pid == pid && d.project_path@
                            == project_path@,
                        None => false,
                    }
                    &&& forall|key: Seq<char>|
                        key != project_path@ ==> final(self).spec_lookup(key) == old(
                            self,
                        ).spec_lookup(key)
                },
                Err(e) => e == RegistryError::ClockUnavailable && *final(self) == *old(self),
            },
    {
        match unix_time_now() {
            Some(now) => {
                self.register_daemon_at(project_path, port, pid, now);
                Ok(())
            },
            None => Err(RegistryError::ClockUnavailable),
        }
    }

    /// Look up the daemon registered for a project.
    pub fn find_daemon(&self, project_path: &str) -> (r: Option<&DaemonInfo>)
        requires
            self.wf(),
        ensures
            match self.spec_lookup(project_path@) {
                Some(d) => match r {
                    Some(x) => *x == d,
                    None => false,
                },
                None => r is None,
            },
    {
        match self.find_index(project_path) {
            Some(i) => Some(&self.daemons[i].1),
            None => None,
        }
    }

    /// Remove the entry for a project, handing back what was there.  No
    /// other entry moves; removing an unknown path changes nothing.
    pub fn unregister_daemon(&mut self, project_path: &str) -> (r: Option<DaemonInfo>)
        requires
            old(self).wf(),
        ensures
            final(self).wf(),
            r == old(self).spec_lookup(project_path@),
            final(self).spec_lookup(project_path@) is None,
            forall|key: Seq<char>|
                key != project_path@ ==> final(self).spec_lookup(key) == old(self).spec_lookup(
                    key,
                ),
            old(self).spec_lookup(project_path@) is None ==> *final(self) == *old(self),
    {
        match self.find_index(project_path) {
            Some(i) => {
                let ghost pre = self.daemons@;
                let (_key, info) = self.daemons.remove(i);
                proof {
                    lemma_find_entry_remove(pre, i as int, project_path@);
                }
                Some(info)
            },
            None => None,
        }
    }

    /// All registered daemons, in registration order.
    pub fn get_all_daemons(&self) -> (r: &Vec<(String, DaemonInfo)>)
        requires
            self.wf(),
        ensures
            r@ == self.spec_entries(),
            forall|i: int|
                0 <= i < r@.len() ==> self.spec_lookup(#[trigger] r@[i].0@) is Some,
    {
        proof {
            assert forall|i: int|
                0 <= i < self.daemons@.len() implies self.spec_lookup(
                #[trigger] self.daemons@[i].0@,
            ) is Some by {
                lemma_find_entry_at(self.daemons@, i, self.daemons@[i].0@);
            }
        }
        &self.daemons
    }

    /// Drop every entry whose path is on the `dead` list (as a liveness
    /// probe reported); entries off the list stay exactly as they were.
    pub fn cleanup_dead_daemons(&mut self, dead: &Vec<String>)
        requires
            old(self).wf(),
        ensures
            final(self).wf(),
            forall|key: Seq<char>|
                final(self).spec_lookup(key) == if spec_has_key(dead@, key) {
                    None
                } else {
                    old(self).spec_lookup(key)
                },
    {
        let n = dead.len();
        let mut i: usize = 0;
        while i < n
            invariant
                0 <= i <= n,
                n == dead@.len(),
                self.wf(),
                forall|key: Seq<char>|
                    #[trigger] self.spec_lookup(key) == if spec_has_key(
                        dead@.subrange(0, i as int),
                        key,
                    ) {
                        None
                    } else {
                        old(self).spec_lookup(key)
                    },
            decreases n - i,
        {
            let ghost before = *self;
            let _ = self.unregister_daemon(dead[i].as_str());
            proof {
                assert forall|key: Seq<char>|
                    #[trigger] self.spec_lookup(key) == (if spec_has_key(
                        dead@.subrange(0, i + 1),
                        key,
                    ) {
                        None
                    } else {
                        old(self).spec_lookup(key)
                    }) by {
                    if key == dead@[i as int]@ {
                        assert(spec_has_key(dead@.subrange(0, i + 1), key)) by {
                            assert(dead@.subrange(0, i + 1)[i as int]@ == key);
                        }
                    } else {
                        if spec_has_key(dead@.subrange(0, i + 1), key) {
                            let w = choose|k: int|
                                0 <= k < i + 1 && #[trigger] dead@.subrange(0, i + 1)[k]@ == key;
                            assert(dead@.subrange(0, i as int)[w]@ == key);
                        }
                        if spec_has_key(dead@.subrange(0, i as int), key) {
                            let w = choose|k: int|
                                0 <= k < i && #[trigger] dead@.subrange(0, i as int)[k]@ == key;
                            assert(dead@.subrange(0, i + 1)[w]@ == key);
                        }
                    }
                }
            }
            i = i + 1;
        }
        proof {
            assert(dead@.subrange(0, n as int) =~= dead@);
            assert forall|key: Seq<char>|
                #[trigger] final(self).spec_lookup(key) == (if spec_has_key(dead@, key) {
                    None
                } else {
                    old(self).spec_lookup(key)
                }) by {
                if spec_has_key(dead@, key) {
                    let w = choose|k: int| 0 <= k < dead@.len() && #[trigger] dead@[k]@ == key;
                    assert(dead@.subrange(0, n as int)[w]@ == key);
                } else {
                    if spec_has_key(dead@.subrange(0, n as int), key) {
                        let w = choose|k: int|
                            0 <= k < n && #[trigger] dead@.subrange(0, n as int)[k]@ == key;
                        assert(dead@[w]@ == key);
                    }
                }
            }
        }
    }

    /// The lowest port in the probe range that the probe reported free:
    /// ports are tried from 3000 up, and 9999 is the last candidate.
    pub fn find_available_port(occupied: &Vec<u16>) -> (r: Option<u16>)
        ensures
            match r {
                Some(p) => 3000 <= p <= 9999 && !occupied@.contains(p) && forall|q: u16|
                    3000 <= q < p ==> occupied@.contains(q),
                None => forall|q: u16| 3000 <= q <= 9999 ==> occupied@.contains(q),
            },
    {
        let mut port: u16 = 3000;
        loop
            invariant
                3000 <= port <= 10000,
                forall|q: u16| 3000 <= q < port ==> occupied@.contains(q),
            decreases 10000 - port,
        {
            if port > 9999 {
                return None;
            }
            let mut taken = false;
            let mut i: usize = 0;
            let n = occupied.len();
            while i < n
                invariant
                    0 <= i <= n,
                    n == occupied@.len(),
                    taken == exists|k: int| 0 <= k < i && occupied@[k] == port,
                decreases n - i,
            {
                if occupied[i] == port {
                    taken = true;
                }
                i = i + 1;
            }
            proof {
                if taken {
                    assert(occupied@.contains(port));
                } else {
                    assert(!occupied@.contains(port)) by {
                        if occupied@.contains(port) {
                            let k = choose|k: int|
                                0 <= k < occupied@.len() && occupied@[k] == port;
                            assert(false);
                        }
                    }
                }
            }
            if !taken {
                return Some(port);
            }
            port = port + 1;
        }
    }
}

/// Where the keys are unique and `entries[i]` holds `key`, the lookup
/// answers with exactly that entry.
proof fn lemma_find_entry_at(entries: Seq<(String, DaemonInfo)>, i: int, key: Seq<char>)
    requires
        0 <= i < entries.len(),
        entries[i].0@ == key,
        forall|a: int, b: int| 0 <= a < b < entries.len() ==> #[trigger] entries[a].0@ != #[trigger] entries[b].0@,
    ensures
        spec_find_entry(entries, key) == Some(entries[i].1),
    decreases i,
{
    if i == 0 {
    } else {
        assert(entries[0].0@ != key);
        assert(entries.drop_first()[i - 1] == entries[i]);
        assert forall|a: int, b: int|
            0 <= a < b < entries.drop_first().len() implies #[trigger] entries.drop_first()[a].0@
            != #[trigger] entries.drop_first()[b].0@ by {
            assert(entries.drop_first()[a] == entries[a + 1]);
            assert(entries.drop_first()[b] == entries[b + 1]);
        }
        lemma_find_entry_at(entries.drop_first(), i - 1, key);
    }
}

/// A key at no index is absent.
proof fn lemma_find_entry_absent(entries: Seq<(String, DaemonInfo)>, key: Seq<char>)
    requires
        forall|k: int| 0 <= k < entries.len() ==> #[trigger] entries[k].0@ != key,
    ensures
        spec_find_entry(entries, key) is None,
    decreases entries.len(),
{
    if entries.len() > 0 {
        assert(forall|k: int|
            0 <= k < entries.drop_first().len() ==> #[trigger] entries.drop_first()[k]
                == entries[k + 1]);
        lemma_find_entry_absent(entries.drop_first(), key);
    }
}

/// A found entry sits at some index.
proof fn lemma_find_entry_witness(entries: Seq<(String, DaemonInfo)>, key: Seq<char>)
    requires
        spec_find_entry(entries, key) is Some,
    ensures
        exists|i: int|
            0 <= i < entries.len() && #[trigger] entries[i].0@ == key && spec_find_entry(
                entries,
                key,
            ) == Some(entries[i].1),
    decreases entries.len(),
{
    if entries.len() > 0 {
        if entries[0].0@ == key {
            assert(entries[0].0@ == key && spec_find_entry(entries, key) == Some(entries[0].1));
        } else {
            lemma_find_entry_witness(entries.drop_first(), key);
            let j = choose|j: int|
                0 <= j < entries.drop_first().len() && #[trigger] entries.drop_first()[j].0@ == key
                    && spec_find_entry(entries.drop_first(), key) == Some(
                    entries.drop_first()[j].1,
                );
            assert(entries[j + 1] == entries.drop_first()[j]);
            assert(entries[j + 1].0@ == key && spec_find_entry(entries, key) == Some(
                entries[j + 1].1,
            ));
        }
    }
}

/// Replacing the entry at the key's own index replaces only that key's
/// answer.
proof fn lemma_find_entry_update(
    pre: Seq<(String, DaemonInfo)>,
    post: Seq<(String, DaemonInfo)>,
    i: int,
    key: Seq<char>,
)
    requires
        0 <= i < pre.len(),
        post.len() == pre.len(),
        pre[i].0@ == key,
        post[i].0@ == key,
        forall|k: int| 0 <= k < pre.len() && k != i ==> post[k] == pre[k],
        forall|a: int, b: int| 0 <= a < b < pre.len() ==> #[trigger] pre[a].0@ != #[trigger] pre[b].0@,
    ensures
        spec_find_entry(post, key) == Some(post[i].1),
        forall|other: Seq<char>|
            other != key ==> spec_find_entry(post, other) == spec_find_entry(pre, other),
        forall|a: int, b: int|
            0 <= a < b < post.len() ==> #[trigger] post[a].0@ != #[trigger] post[b].0@,
{
    assert forall|a: int, b: int|
        0 <= a < b < post.len() implies #[trigger] post[a].0@ != #[trigger] post[b].0@ by {
        assert(pre[a].0@ != pre[b].0@);
        if a == i {
            assert(post[b] == pre[b]);
        } else if b == i {
            assert(post[a] == pre[a]);
        } else {
            assert(post[a] == pre[a] && post[b] == pre[b]);
        }
    }
    lemma_find_entry_at(post, i, key);
    assert forall|other: Seq<char>|
        other != key implies spec_find_entry(post, other) == spec_find_entry(pre, other) by {
        if spec_find_entry(pre, other) is Some {
            lemma_find_entry_witness(pre, other);
            let j = choose|j: int|
                0 <= j < pre.len() && #[trigger] pre[j].0@ == other && spec_find_entry(pre, other)
                    == Some(pre[j].1);
            assert(j != i);
            assert(post[j] == pre[j]);
            lemma_find_entry_at(pre, j, other);
            lemma_find_entry_at(post, j, other);
        } else {
            assert forall|k: int| 0 <= k < post.len() implies #[trigger] post[k].0@ != other by {
                if k == i {
                } else {
                    assert(post[k] == pre[k]);
                    if pre[k].0@ == other {
                        lemma_find_entry_at(pre, k, other);
                    }
                }
            }
            lemma_find_entry_absent(post, other);
        }
    }
}

/// Appending a fresh entry answers its key and no other.
proof fn lemma_find_entry_push(pre: Seq<(String, DaemonInfo)>, entry: (String, DaemonInfo))
    requires
        spec_find_entry(pre, entry.0@) is None,
        forall|a: int, b: int| 0 <= a < b < pre.len() ==> #[trigger] pre[a].0@ != #[trigger] pre[b].0@,
    ensures
        spec_find_entry(pre.push(entry), entry.0@) == Some(entry.1),
        forall|other: Seq<char>|
            other != entry.0@ ==> spec_find_entry(pre.push(entry), other) == spec_find_entry(
                pre,
                other,
            ),
        forall|a: int, b: int|
            0 <= a < b < pre.push(entry).len() ==> #[trigger] pre.push(entry)[a].0@ != #[trigger] pre.push(
                entry,
            )[b].0@,
{
    let post = pre.push(entry);
    assert forall|k: int| 0 <= k < pre.len() implies #[trigger] pre[k].0@ != entry.0@ by {
        if pre[k].0@ == entry.0@ {
            lemma_find_entry_at(pre, k, entry.0@);
        }
    }
    assert forall|a: int, b: int|
        0 <= a < b < post.len() implies #[trigger] post[a].0@ != #[trigger] post[b].0@ by {
        if b == pre.len() {
            assert(post[a] == pre[a] && post[b] == entry);
        } else {
            assert(post[a] == pre[a] && post[b] == pre[b]);
            assert(pre[a].0@ != pre[b].0@);
        }
    }
    assert(post[pre.len() as int] == entry);
    lemma_find_entry_at(post, pre.len() as int, entry.0@);
    assert forall|other: Seq<char>|
        other != entry.0@ implies spec_find_entry(post, other) == spec_find_entry(pre, other) by {
        if spec_find_entry(pre, other) is Some {
            lemma_find_entry_witness(pre, other);
            let j = choose|j: int|
                0 <= j < pre.len() && #[trigger] pre[j].0@ == other && spec_find_entry(pre, other)
                    == Some(pre[j].1);
            assert(post[j] == pre[j]);
            lemma_find_entry_at(pre, j, other);
            lemma_find_entry_at(post, j, other);
        } else {
            assert forall|k: int| 0 <= k < post.len() implies #[trigger] post[k].0@ != other by {
                if k < pre.len() {
                    assert(post[k] == pre[k]);
                    if pre[k].0@ == other {
                        lemma_find_entry_at(pre, k, other);
                    }
                } else {
                    assert(post[k] == entry);
                }
            }
            lemma_find_entry_absent(post, other);
        }
    }
}

/// Removing the entry at the key's own index erases only that key's
/// answer.
proof fn lemma_find_entry_remove(pre: Seq<(String, DaemonInfo)>, i: int, key: Seq<char>)
    requires
        0 <= i < pre.len(),
        pre[i].0@ == key,
        forall|a: int, b: int| 0 <= a < b < pre.len() ==> #[trigger] pre[a].0@ != #[trigger] pre[b].0@,
    ensures
        spec_find_entry(pre.remove(i), key) is None,
        forall|other: Seq<char>|
            other != key ==> spec_find_entry(pre.remove(i), other) == spec_find_entry(pre, other),
        forall|a: int, b: int|
            0 <= a < b < pre.remove(i).len() ==> #[trigger] pre.remove(i)[a].0@ != #[trigger] pre.remove(
                i,
            )[b].0@,
{
    let post = pre.remove(i);
    assert(forall|k: int| 0 <= k < i ==> post[k] == pre[k]);
    assert(forall|k: int| i <= k < post.len() ==> post[k] == pre[k + 1]);
    assert forall|a: int, b: int|
        0 <= a < b < post.len() implies #[trigger] post[a].0@ != #[trigger] post[b].0@ by {
        let pa = if a < i {
            a
        } else {
            a + 1
        };
        let pb = if b < i {
            b
        } else {
            b + 1
        };
        assert(post[a] == pre[pa] && post[b] == pre[pb]);
        assert(pre[pa].0@ != pre[pb].0@);
    }
    assert forall|k: int| 0 <= k < post.len() implies #[trigger] post[k].0@ != key by {
        let pk = if k < i {
            k
        } else {
            k + 1
        };
        assert(post[k] == pre[pk]);
        assert(pre[pk].0@ != pre[i].0@);
    }
    lemma_find_entry_absent(post, key);
    assert forall|other: Seq<char>|
        other != key implies spec_find_entry(post, other) == spec_find_entry(pre, other) by {
        if spec_find_entry(pre, other) is Some {
            lemma_find_entry_witness(pre, other);
            let j = choose|j: int|
                0 <= j < pre.len() && #[trigger] pre[j].0@ == other && spec_find_entry(pre, other)
                    == Some(pre[j].1);
            assert(j != i);
            let pj = if j < i {
                j
            } else {
                j - 1
            };
            assert(post[pj] == pre[j]);
            lemma_find_entry_at(pre, j, other);
            lemma_find_entry_at(post, pj, other);
        } else {
            assert forall|k: int| 0 <= k < post.len() implies #[trigger] post[k].0@ != other by {
                let pk = if k < i {
                    k
                } else {
                    k + 1
                };
                assert(post[k] == pre[pk]);
                if pre[pk].0@ == other {
                    lemma_find_entry_at(pre, pk, other);
                }
            }
            lemma_find_entry_absent(post, other);
        }
    }
}

} // verus!