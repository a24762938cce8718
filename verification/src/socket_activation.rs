//! systemd LISTEN_FDS handling.
//!
//! Reference: man sd_listen_fds(3), sd_listen_fds_with_names(3).

use vstd::prelude::*;

use crate::decimal::{decimal, i32_in, is_digit, law_decimal_reads_back, numeral, parse_i32};
use crate::text::{
    comes_before, fields, law_a_separator_separates_fields,
    law_without_separators_there_is_one_field, lemma_order_is_total, lemma_order_is_transitive, same_text, split_fields,
    text_before, texts,
};

verus! {

/// Per sd_listen_fds(3), inherited fds start at 3 (after stdin/stdout/stderr).
pub const SD_LISTEN_FDS_START: i32 = 3;

/// Listeners by name, each given by its file descriptor. No name occurs twice.
#[derive(Debug)]
pub struct NamedFds {
    entries: Vec<(String, i32)>,
}

/// Whether `name` is among the names of `entries`.
pub open spec fn is_named(entries: Seq<(String, i32)>, name: Seq<char>) -> bool {
    exists|i: int| 0 <= i < entries.len() && (#[trigger] entries[i]).0@ == name
}

/// The descriptor that `entries` give for `name`.
pub open spec fn fd_named(entries: Seq<(String, i32)>, name: Seq<char>) -> i32 {
    entries[choose|i: int| 0 <= i < entries.len() && (#[trigger] entries[i]).0@ == name].1
}

impl View for NamedFds {
    type V = Map<Seq<char>, i32>;

    closed spec fn view(&self) -> Map<Seq<char>, i32> {
        Map::new(
            |name: Seq<char>| is_named(self.entries@, name),
            |name: Seq<char>| fd_named(self.entries@, name),
        )
    }
}

/// Whether there is exactly one listener, and `name` is its name.
pub open spec fn is_only(listeners: Map<Seq<char>, i32>, name: Seq<char>) -> bool {
    listeners.dom() == set![name]
}

/// The descriptor of the only listener, if there is exactly one.
pub open spec fn only_fd(listeners: Map<Seq<char>, i32>) -> Option<i32> {
    if exists|name: Seq<char>| is_only(listeners, name) {
        Some(listeners[choose|name: Seq<char>| is_only(listeners, name)])
    } else {
        None
    }
}

/// Whether `names` are, in order, the names of `listeners` and those of `others`,
/// each as often as it occurs there.
pub open spec fn lists_names(
    names: Seq<Seq<char>>,
    listeners: Map<Seq<char>, i32>,
    others: Seq<Seq<char>>,
) -> bool {
    &&& in_name_order(names)
    &&& forall|name: Seq<char>| #[trigger]
        names.to_multiset().count(name) == (if listeners.contains_key(name) {
            1nat
        } else {
            0nat
        }) + others.to_multiset().count(name)
}

impl NamedFds {
    /// No name occurs twice.
    pub closed spec fn wf(&self) -> bool {
        forall|i: int, j: int|
            0 <= i < j < self.entries@.len() ==> (#[trigger] self.entries@[i]).0@ != (
            #[trigger] self.entries@[j]).0@
    }

    /// An entry's name leads to its descriptor.
    proof fn lemma_entry(&self, i: int)
        requires
            self.wf(),
            0 <= i < self.entries@.len(),
        ensures
            self@.contains_key(self.entries@[i].0@),
            self@[self.entries@[i].0@] == self.entries@[i].1,
    {
        let name = self.entries@[i].0@;
        assert(is_named(self.entries@, name));
        let k = choose|k: int|
            0 <= k < self.entries@.len() && (#[trigger] self.entries@[k]).0@ == name;
        assert(k == i);
    }

    /// No listener.
    pub fn new() -> (fds: Self)
        ensures
            fds.wf(),
            fds@ == Map::<Seq<char>, i32>::empty(),
    {
        let fds = NamedFds { entries: Vec::new() };
        assert(fds@ =~= Map::<Seq<char>, i32>::empty());
        fds
    }

    /// Whether there is no listener.
    pub fn is_empty(&self) -> (empty: bool)
        requires
            self.wf(),
        ensures
            empty == (self@ == Map::<Seq<char>, i32>::empty()),
    {
        if self.entries.len() == 0 {
            assert(self@ =~= Map::<Seq<char>, i32>::empty());
            true
        } else {
            proof {
                self.lemma_entry(0);
            }
            false
        }
    }

    /// Where the entry of `name` is.
    fn find(&self, name: &str) -> (at: Option<usize>)
        requires
            self.wf(),
        ensures
            match at {
                Some(i) => i < self.entries@.len() && self.entries@[i as int].0@ == name@
                    && self@.contains_key(name@) && self@[name@] == self.entries@[i as int].1,
                None => !self@.contains_key(name@) && !is_named(self.entries@, name@),
            },
    {
        let mut i: usize = 0;
        while i < self.entries.len()
            invariant
                self.wf(),
                i <= self.entries@.len(),
                forall|j: int| 0 <= j < i ==> (#[trigger] self.entries@[j]).0@ != name@,
            decreases self.entries@.len() - i,
        {
            if same_text(self.entries[i].0.as_str(), name) {
                proof {
                    self.lemma_entry(i as int);
                }
                return Some(i);
            }
            i += 1;
        }
        None
    }

    /// Gives `name` the descriptor `fd`, and hands out the one that it replaces.
    pub fn insert(&mut self, name: String, fd: i32) -> (replaced: Option<i32>)
        requires
            old(self).wf(),
        ensures
            final(self).wf(),
            final(self)@ == old(self)@.insert(name@, fd),
            replaced == if old(self)@.contains_key(name@) {
                Some(old(self)@[name@])
            } else {
                None::<i32>
            },
    {
        let ghost before = *self;
        let ghost text = name@;
        match self.find(name.as_str()) {
            Some(i) => {
                let replaced: i32 = self.entries[i].1;
                self.entries.set(i, (name, fd));
                assert(self.entries@ == before.entries@.update(i as int, (name, fd)));
                proof {
                    assert(self.wf());
                    before.lemma_map_after_set(*self, i as int, text, fd);
                }
                Some(replaced)
            },
            None => {
                self.entries.push((name, fd));
                proof {
                    let n = before.entries@.len() as int;
                    assert(self.entries@[n].0@ == text);
                    assert forall|i: int, j: int| 0 <= i < j < self.entries@.len() implies (
                    #[trigger] self.entries@[i]).0@ != (#[trigger] self.entries@[j]).0@ by {
                        if j == n {
                            assert(before.entries@[i].0@ != text);
                        }
                    }
                    before.lemma_map_after_push(*self, text, fd);
                }
                None
            },
        }
    }

    /// What an entry in another's place does to the names.
    proof fn lemma_map_after_set(self, after: NamedFds, i: int, name: Seq<char>, fd: i32)
        requires
            self.wf(),
            after.wf(),
            0 <= i < self.entries@.len(),
            self.entries@[i].0@ == name,
            after.entries@.len() == self.entries@.len(),
            after.entries@[i].0@ == name,
            after.entries@[i].1 == fd,
            forall|j: int|
                0 <= j < self.entries@.len() && j != i ==> #[trigger] after.entries@[j]
                    == self.entries@[j],
        ensures
            after@ == self@.insert(name, fd),
    {
        assert forall|n: Seq<char>| #[trigger]
            after@.contains_key(n) == self@.insert(name, fd).contains_key(n) && (
        after@.contains_key(n) ==> after@[n] == self@.insert(name, fd)[n]) by {
            if after@.contains_key(n) {
                let j = choose|j: int|
                    0 <= j < after.entries@.len() && (#[trigger] after.entries@[j]).0@ == n;
                after.lemma_entry(j);
                self.lemma_entry(j);
            }
            if self@.contains_key(n) {
                let j = choose|j: int|
                    0 <= j < self.entries@.len() && (#[trigger] self.entries@[j]).0@ == n;
                after.lemma_entry(j);
                self.lemma_entry(j);
            }
            after.lemma_entry(i);
        }
        assert(after@ =~= self@.insert(name, fd));
    }

    /// What a new entry does to the names.
    proof fn lemma_map_after_push(self, after: NamedFds, name: Seq<char>, fd: i32)
        requires
            self.wf(),
            after.wf(),
            !is_named(self.entries@, name),
            after.entries@.len() == self.entries@.len() + 1,
            after.entries@.last().0@ == name,
            after.entries@.last().1 == fd,
            forall|j: int|
                0 <= j < self.entries@.len() ==> #[trigger] after.entries@[j] == self.entries@[j],
        ensures
            after@ == self@.insert(name, fd),
    {
        let last = self.entries@.len() as int;
        after.lemma_entry(last);
        assert forall|n: Seq<char>| #[trigger]
            after@.contains_key(n) == self@.insert(name, fd).contains_key(n) && (
        after@.contains_key(n) ==> after@[n] == self@.insert(name, fd)[n]) by {
            if after@.contains_key(n) {
                let j = choose|j: int|
                    0 <= j < after.entries@.len() && (#[trigger] after.entries@[j]).0@ == n;
                after.lemma_entry(j);
                if j < last {
                    self.lemma_entry(j);
                }
            }
            if self@.contains_key(n) {
                let j = choose|j: int|
                    0 <= j < self.entries@.len() && (#[trigger] self.entries@[j]).0@ == n;
                after.lemma_entry(j);
                self.lemma_entry(j);
            }
        }
        assert(after@ =~= self@.insert(name, fd));
    }

    /// Takes the entry at `i` out.
    fn take(&mut self, i: usize) -> (fd: i32)
        requires
            old(self).wf(),
            i < old(self).entries@.len(),
        ensures
            final(self).wf(),
            fd == old(self).entries@[i as int].1,
            final(self).entries@ == old(self).entries@.remove(i as int),
            final(self)@ == old(self)@.remove(old(self).entries@[i as int].0@),
    {
        let ghost before = *self;
        let (name, fd) = self.entries.remove(i);
        proof {
            assert(self.entries@ =~= before.entries@.remove(i as int));
            assert forall|n: Seq<char>| #[trigger]
                self@.contains_key(n) == before@.remove(name@).contains_key(n) && (
            self@.contains_key(n) ==> self@[n] == before@.remove(name@)[n]) by {
                if self@.contains_key(n) {
                    let j = choose|j: int|
                        0 <= j < self.entries@.len() && (#[trigger] self.entries@[j]).0@ == n;
                    self.lemma_entry(j);
                    before.lemma_entry(if j < i {
                        j
                    } else {
                        j + 1
                    });
                }
                if before@.contains_key(n) && n != name@ {
                    let j = choose|j: int|
                        0 <= j < before.entries@.len() && (#[trigger] before.entries@[j]).0@ == n;
                    let k = if j < i {
                        j
                    } else {
                        j - 1
                    };
                    assert(self.entries@[k] == before.entries@[j]);
                    self.lemma_entry(k);
                    before.lemma_entry(j);
                }
            }
            assert(self@ =~= before@.remove(name@));
        }
        fd
    }

    /// Takes out the listener of `name`.
    pub fn remove(&mut self, name: &str) -> (fd: Option<i32>)
        requires
            old(self).wf(),
        ensures
            final(self).wf(),
            final(self)@ == old(self)@.remove(name@),
            fd == if old(self)@.contains_key(name@) {
                Some(old(self)@[name@])
            } else {
                None::<i32>
            },
    {
        match self.find(name) {
            Some(i) => Some(self.take(i)),
            None => {
                assert(self@.remove(name@) =~= self@);
                None
            },
        }
    }

    /// Pulls the one remaining listener when exactly one is left and it wasn't
    /// matched by name: the legacy single-socket unit case.
    pub fn take_single(&mut self) -> (fd: Option<i32>)
        requires
            old(self).wf(),
        ensures
            final(self).wf(),
            fd == only_fd(old(self)@),
            final(self)@ == if fd is Some {
                Map::<Seq<char>, i32>::empty()
            } else {
                old(self)@
            },
    {
        if self.entries.len() == 1 {
            let ghost before = *self;
            proof {
                let name = self.entries@[0].0@;
                self.lemma_entry(0);
                assert(self@.dom() =~= set![name]);
                assert(is_only(self@, name));
                assert forall|n: Seq<char>| is_only(self@, n) implies n == name by {
                    assert(set![n].contains(name));
                }
                assert(only_fd(self@) == Some(self@[name]));
            }
            let fd: i32 = self.take(0);
            assert(self@ =~= Map::<Seq<char>, i32>::empty());
            Some(fd)
        } else {
            proof {
                assert forall|n: Seq<char>| !is_only(self@, n) by {
                    if is_only(self@, n) {
                        assert(set![n].contains(n));
                        assert(self@.contains_key(n));
                        self.lemma_entry(0);
                        self.lemma_entry(1);
                        assert(set![n].contains(self.entries@[0].0@));
                        assert(set![n].contains(self.entries@[1].0@));
                    }
                }
            }
            None
        }
    }

    /// The names, in order.
    pub fn sorted_names(&self) -> (names: Vec<String>)
        requires
            self.wf(),
        ensures
            lists_names(texts(names@), self@, seq![]),
    {
        broadcast use vstd::seq_lib::group_to_multiset_ensures;

        let mut names: Vec<String> = Vec::new();
        let mut i: usize = 0;
        assert(texts(names@) =~= seq![]);
        while i < self.entries.len()
            invariant
                self.wf(),
                i <= self.entries@.len(),
                in_name_order(texts(names@)),
                forall|name: Seq<char>| #[trigger]
                    texts(names@).to_multiset().count(name) == if is_named(
                        self.entries@.take(i as int),
                        name,
                    ) {
                        1nat
                    } else {
                        0nat
                    },
            decreases self.entries@.len() - i,
        {
            let ghost before = texts(names@);
            let ghost text = self.entries@[i as int].0@;
            let ghost seen = self.entries@.take(i as int);
            let ghost seen_next = self.entries@.take(i + 1);
            proof {
                if is_named(seen, text) {
                    let j = choose|j: int| 0 <= j < seen.len() && (#[trigger] seen[j]).0@ == text;
                    assert(self.entries@[j].0@ == self.entries@[i as int].0@);
                }
            }
            insert_in_order(&mut names, self.entries[i].0.clone());
            proof {
                assert forall|name: Seq<char>| #[trigger]
                    texts(names@).to_multiset().count(name) == if is_named(seen_next, name) {
                        1nat
                    } else {
                        0nat
                    } by {
                    if is_named(seen, name) {
                        let j = choose|j: int|
                            0 <= j < seen.len() && (#[trigger] seen[j]).0@ == name;
                        assert(seen_next[j].0@ == name);
                    }
                    if is_named(seen_next, name) {
                        let j = choose|j: int|
                            0 <= j < seen_next.len() && (#[trigger] seen_next[j]).0@ == name;
                        if j < i {
                            assert(seen[j].0@ == name);
                        }
                    }
                    assert(seen_next[i as int].0@ == text);
                    assert(before.to_multiset().insert(text).count(name)
                        == before.to_multiset().count(name) + if name == text {
                        1nat
                    } else {
                        0nat
                    });
                }
            }
            i += 1;
        }
        assert(self.entries@.take(i as int) =~= self.entries@);
        names
    }
}

/// None of `names` comes before one that precedes it.
pub open spec fn in_name_order(names: Seq<Seq<char>>) -> bool {
    forall|i: int, j: int|
        0 <= i < j < names.len() ==> !comes_before(#[trigger] names[j], #[trigger] names[i])
}

/// Puts `name` in its place among `names`.
pub fn insert_in_order(names: &mut Vec<String>, name: String)
    requires
        in_name_order(texts(old(names)@)),
    ensures
        in_name_order(texts(final(names)@)),
        texts(final(names)@).to_multiset() == texts(old(names)@).to_multiset().insert(name@),
{
    let ghost before = texts(names@);
    let ghost text = name@;
    let mut at: usize = 0;
    while at < names.len() && text_before(names[at].as_str(), name.as_str())
        invariant
            at <= names.len(),
            texts(names@) == before,
            text == name@,
            forall|j: int| 0 <= j < at ==> comes_before(#[trigger] before[j], text),
        decreases names.len() - at,
    {
        assert(before[at as int] == names@[at as int]@);
        at += 1;
    }
    assert(at < names.len() ==> before[at as int] == names@[at as int]@);
    names.insert(at, name);
    proof {
        broadcast use vstd::seq_lib::group_to_multiset_ensures;

        let after = texts(names@);
        assert(after =~= before.insert(at as int, text));
        assert forall|i: int, j: int| 0 <= i < j < after.len() implies !comes_before(
            #[trigger] after[j],
            #[trigger] after[i],
        ) by {
            if j == at {
                assert(after[i] == before[i]);
                lemma_order_is_total(before[i], text);
            } else if i == at {
                // The first name that does not come before it comes after it or is the
                // same, and so are the rest.
                let first = before[at as int];
                let other = before[j - 1];
                assert(after[j] == other);
                if comes_before(other, text) {
                    lemma_order_is_total(first, other);
                    if first != other {
                        assert(!comes_before(other, first));
                        lemma_order_is_transitive(first, other, text);
                    }
                }
            } else {
                let x = if i < at {
                    i
                } else {
                    i - 1
                };
                let y = if j < at {
                    j
                } else {
                    j - 1
                };
                assert(after[i] == before[x] && after[j] == before[y]);
                assert(!comes_before(before[y], before[x]));
            }
        }
    }
}

/// Two lists of the same names, both in order, are the same list.
pub proof fn law_the_order_is_determined(a: Seq<Seq<char>>, b: Seq<Seq<char>>)
    requires
        in_name_order(a),
        in_name_order(b),
        a.to_multiset() == b.to_multiset(),
    ensures
        a == b,
{
    let leq = |x: Seq<char>, y: Seq<char>| !comes_before(y, x);
    assert forall|x: Seq<char>, y: Seq<char>| #[trigger] leq(x, y) && #[trigger] leq(
        y,
        x,
    ) implies x == y by {
        lemma_order_is_total(x, y);
    }
    assert forall|x: Seq<char>| #[trigger] leq(x, x) by {
        lemma_order_is_total(x, x);
    }
    assert forall|x: Seq<char>, y: Seq<char>| #[trigger] leq(x, y) || #[trigger] leq(y, x) by {
        lemma_order_is_total(x, y);
    }
    assert forall|x: Seq<char>, y: Seq<char>, z: Seq<char>| #[trigger]
        leq(x, y) && #[trigger] leq(y, z) implies leq(x, z) by {
        lemma_order_is_total(x, y);
        lemma_order_is_total(y, z);
        lemma_order_is_total(x, z);
        if x != y && y != z {
            lemma_order_is_transitive(x, y, z);
        }
    }
    assert(vstd::relations::sorted_by(a, leq));
    assert(vstd::relations::sorted_by(b, leq));
    vstd::seq_lib::lemma_sorted_unique(a, b, leq);
}

/// How many descriptors were passed on to the process `own_pid`: `LISTEN_FDS` of
/// them, if `LISTEN_PID` names that process.
pub open spec fn passed_on(pid: Option<String>, fds: Option<String>, own_pid: i32) -> int {
    match (pid, fds) {
        (Some(p), Some(n)) => match (i32_in(p@), i32_in(n@)) {
            (Some(p), Some(n)) => if p == own_pid && n >= 1 {
                n as int
            } else {
                0
            },
            _ => 0,
        },
        _ => 0,
    }
}

/// The names in `LISTEN_FDNAMES`.
pub open spec fn listed_names(names: Option<String>) -> Seq<Seq<char>> {
    match names {
        Some(s) => fields(s@, ':'),
        None => seq![],
    }
}

/// The name of the `i`th descriptor: the one listed for it, or else `fd` and its
/// number.
pub open spec fn fd_name(names: Seq<Seq<char>>, i: int) -> Seq<char> {
    if i < names.len() && names[i].len() > 0 {
        names[i]
    } else {
        "fd"@ + numeral((SD_LISTEN_FDS_START + i) as nat)
    }
}

/// The first `n` descriptors by name; of those with the same name, the last.
pub open spec fn first_listeners(names: Seq<Seq<char>>, n: nat) -> Map<Seq<char>, i32>
    decreases n,
{
    if n == 0 {
        Map::empty()
    } else {
        first_listeners(names, (n - 1) as nat).insert(
            fd_name(names, n - 1),
            (SD_LISTEN_FDS_START + n - 1) as i32,
        )
    }
}

/// The first `n` descriptors that lost their name to a later one, each with that
/// name.
pub open spec fn replaced_fds(names: Seq<Seq<char>>, n: nat) -> Seq<(Seq<char>, i32)>
    decreases n,
{
    if n == 0 {
        seq![]
    } else {
        let before = first_listeners(names, (n - 1) as nat);
        let name = fd_name(names, n - 1);
        if before.contains_key(name) {
            replaced_fds(names, (n - 1) as nat).push((name, before[name]))
        } else {
            replaced_fds(names, (n - 1) as nat)
        }
    }
}

/// A descriptor and its name.
#[derive(Debug)]
pub struct NamedFd {
    pub name: String,
    pub fd: i32,
}

/// The descriptors of `fds` and their names, one by one.
pub open spec fn named(fds: Seq<NamedFd>) -> Seq<(Seq<char>, i32)> {
    fds.map_values(|f: NamedFd| (f.name@, f.fd))
}

/// What systemd passed on.
#[derive(Debug)]
pub struct Activation {
    /// Every descriptor, in order.
    pub fds: Vec<i32>,
    /// The listeners by name.
    pub listeners: NamedFds,
    /// The descriptors that lost their name to a later one.
    pub replaced: Vec<NamedFd>,
}

/// The variables by which systemd tells what it passes on, where set.
#[derive(Debug)]
pub struct ListenEnv {
    /// `LISTEN_PID`: the process that is meant.
    pub pid: Option<String>,
    /// `LISTEN_FDS`: how many descriptors there are.
    pub fds: Option<String>,
    /// `LISTEN_FDNAMES`: their names.
    pub names: Option<String>,
}

impl ListenEnv {
    /// How many descriptors were passed on to the process `own_pid`.
    pub open spec fn count(self, own_pid: i32) -> int {
        passed_on(self.pid, self.fds, own_pid)
    }

    /// None of the variables is set.
    pub open spec fn is_unset(self) -> bool {
        self.pid is None && self.fds is None && self.names is None
    }
}

/// Reads an optional number.
fn parse_setting(setting: &Option<String>) -> (value: Option<i32>)
    ensures
        value == match setting {
            Some(s) => i32_in(s@),
            None => None,
        },
{
    match setting {
        Some(s) => parse_i32(s.as_str()),
        None => None,
    }
}

/// The socket-activation listeners keyed by their `FileDescriptorName`, given the
/// variables by which systemd tells of them. When names are absent, keys are
/// synthesized as `fd<N>`. Empty when the process wasn't socket-activated.
///
/// The variables are unset in every case, as sd_listen_fds(3) recommends, so any
/// child doesn't think it inherited socket activation.
pub fn systemd_listeners(env: &mut ListenEnv, own_pid: i32) -> (activation: Activation)
    requires
        SD_LISTEN_FDS_START + old(env).count(own_pid) - 1 <= i32::MAX,
    ensures
        final(env).is_unset(),
        activation.fds@ == Seq::new(
            old(env).count(own_pid) as nat,
            |i: int| (SD_LISTEN_FDS_START + i) as i32,
        ),
        activation.listeners.wf(),
        activation.listeners@ == first_listeners(
            listed_names(old(env).names),
            old(env).count(own_pid) as nat,
        ),
        named(activation.replaced@) == replaced_fds(
            listed_names(old(env).names),
            old(env).count(own_pid) as nat,
        ),
{
    let ghost names = listed_names(env.names);
    let listed: Vec<String> = match &env.names {
        Some(s) => split_fields(s.as_str(), ':'),
        None => Vec::new(),
    };
    assert(texts(listed@) =~= names);
    let count: i32 = match (parse_setting(&env.pid), parse_setting(&env.fds)) {
        (Some(p), Some(n)) => if p == own_pid && n >= 1 {
            n
        } else {
            0
        },
        _ => 0,
    };
    env.pid = None;
    env.fds = None;
    env.names = None;

    let mut all: Vec<i32> = Vec::new();
    let mut listeners = NamedFds::new();
    let mut replaced: Vec<NamedFd> = Vec::new();
    let mut i: i32 = 0;
    assert(named(replaced@) =~= seq![]);
    while i < count
        invariant
            0 <= i <= count,
            SD_LISTEN_FDS_START + count - 1 <= i32::MAX,
            all@ == Seq::new(i as nat, |k: int| (SD_LISTEN_FDS_START + k) as i32),
            listeners.wf(),
            texts(listed@) == names,
            listeners@ == first_listeners(names, i as nat),
            named(replaced@) == replaced_fds(names, i as nat),
        decreases count - i,
    {
        let fd: i32 = SD_LISTEN_FDS_START + i;
        let at: usize = i as usize;
        let name: String = if at < listed.len() && !listed[at].as_str().is_empty() {
            listed[at].clone()
        } else {
            let mut made = "fd".to_owned();
            made.append(decimal(fd as u32).as_str());
            made
        };
        assert(name@ == fd_name(names, i as int)) by {
            if at < listed.len() {
                assert(texts(listed@)[i as int] == listed@[i as int]@);
            }
        }
        if let Some(earlier) = listeners.insert(name.clone(), fd) {
            let ghost before = replaced@;
            replaced.push(NamedFd { name, fd: earlier });
            assert(named(replaced@) =~= named(before).push((name@, earlier)));
        }
        all.push(fd);
        i += 1;
        assert(all@ =~= Seq::new(i as nat, |k: int| (SD_LISTEN_FDS_START + k) as i32));
    }
    Activation { fds: all, listeners, replaced }
}

/// There are listeners exactly when both variables are set and numbers, the process
/// is meant and at least one descriptor is announced.
pub proof fn law_activated_exactly_when_told(env: ListenEnv, own_pid: i32)
    ensures
        first_listeners(listed_names(env.names), env.count(own_pid) as nat) != Map::<
            Seq<char>,
            i32,
        >::empty() <==> {
            &&& env.pid is Some && i32_in(env.pid->0@) == Some(own_pid)
            &&& env.fds is Some && i32_in(env.fds->0@) is Some && i32_in(env.fds->0@)->0 >= 1
        },
        env.count(own_pid) == if env.pid is Some && i32_in(env.pid->0@) == Some(own_pid)
            && env.fds is Some && i32_in(env.fds->0@) is Some && i32_in(env.fds->0@)->0 >= 1 {
            i32_in(env.fds->0@)->0 as int
        } else {
            0
        },
{
    let names = listed_names(env.names);
    let n = env.count(own_pid) as nat;
    if n > 0 {
        assert(first_listeners(names, n).contains_key(fd_name(names, n - 1)));
    }
}

/// Once the variables are unset, nothing is passed on any more: a second call finds
/// no listener.
pub proof fn law_a_second_call_finds_nothing(env: ListenEnv, own_pid: i32)
    requires
        env.is_unset(),
    ensures
        env.count(own_pid) == 0,
        first_listeners(listed_names(env.names), env.count(own_pid) as nat) == Map::<
            Seq<char>,
            i32,
        >::empty(),
{
}

/// Every descriptor is kept: its name leads to it, or it is among those that lost
/// their name.
pub proof fn law_every_descriptor_is_kept(names: Seq<Seq<char>>, n: nat, i: int)
    requires
        0 <= i < n,
    ensures
        ({
            let name = fd_name(names, i);
            let fd = (SD_LISTEN_FDS_START + i) as i32;
            ||| first_listeners(names, n).contains_key(name) && first_listeners(names, n)[name]
                == fd
            ||| replaced_fds(names, n).contains((name, fd))
        }),
    decreases n,
{
    let name = fd_name(names, i);
    let fd = (SD_LISTEN_FDS_START + i) as i32;
    if i < n - 1 {
        let before = (n - 1) as nat;
        law_every_descriptor_is_kept(names, before, i);
        let kept = replaced_fds(names, before);
        let last = fd_name(names, n - 1);
        if kept.contains((name, fd)) {
            let k = choose|k: int| 0 <= k < kept.len() && kept[k] == (name, fd);
            assert(replaced_fds(names, n)[k] == (name, fd));
        } else if last == name {
            assert(replaced_fds(names, n).last() == (name, fd));
            assert(replaced_fds(names, n)[kept.len() as int] == (name, fd));
        }
    }
}

/// Every descriptor's name leads to a listener.
pub proof fn law_every_descriptor_is_named(names: Seq<Seq<char>>, n: nat, i: int)
    requires
        0 <= i < n,
    ensures
        first_listeners(names, n).contains_key(fd_name(names, i)),
    decreases n,
{
    if i < n - 1 {
        law_every_descriptor_is_named(names, (n - 1) as nat, i);
    }
}

/// A name leads to the last descriptor that has it. So no descriptor goes by two
/// names.
pub proof fn law_a_name_leads_to_its_last_descriptor(
    names: Seq<Seq<char>>,
    n: nat,
    name: Seq<char>,
)
    requires
        SD_LISTEN_FDS_START + n - 1 <= i32::MAX,
        first_listeners(names, n).contains_key(name),
    ensures
        ({
            let i = first_listeners(names, n)[name] - SD_LISTEN_FDS_START;
            &&& 0 <= i < n
            &&& fd_name(names, i) == name
            &&& forall|j: int| i < j < n ==> #[trigger] fd_name(names, j) != name
        }),
    decreases n,
{
    if n > 0 && fd_name(names, n - 1) != name {
        law_a_name_leads_to_its_last_descriptor(names, (n - 1) as nat, name);
    }
}

/// Where no names are listed, every descriptor goes by a name of its own.
pub proof fn law_synthesized_names_differ(n: nat, i: int, j: int)
    requires
        0 <= i < j < n,
    ensures
        fd_name(seq![], i) != fd_name(seq![], j),
{
    let a = numeral((SD_LISTEN_FDS_START + i) as nat);
    let b = numeral((SD_LISTEN_FDS_START + j) as nat);
    law_decimal_reads_back((SD_LISTEN_FDS_START + i) as nat);
    law_decimal_reads_back((SD_LISTEN_FDS_START + j) as nat);
    let fd = "fd"@;
    assert((fd + a).skip(fd.len() as int) =~= a);
    assert((fd + b).skip(fd.len() as int) =~= b);
}

/// As many descriptors are taken over as are announced to this process, whatever their
/// number.
pub proof fn law_as_many_as_announced(env: ListenEnv, own_pid: i32, n: i32)
    requires
        own_pid >= 0,
        n >= 1,
        env.pid is Some && env.pid->0@ == numeral(own_pid as nat),
        env.fds is Some && env.fds->0@ == numeral(n as nat),
    ensures
        env.count(own_pid) == n,
{
    law_decimal_reads_back(own_pid as nat);
    law_decimal_reads_back(n as nat);
    assert(is_digit(numeral(own_pid as nat)[0]));
    assert(is_digit(numeral(n as nat)[0]));
}

/// The names are listed with a colon between each and the next; a list without a colon
/// is one name, and without a list there is none.
pub proof fn law_names_are_listed_between_colons(names: String, first: String, second: String)
    requires
        names@ == first@ + seq![':'] + second@,
    ensures
        listed_names(Some(names)) == listed_names(Some(first)) + listed_names(Some(second)),
        !first@.contains(':') ==> listed_names(Some(first)) == seq![first@],
        listed_names(None).len() == 0,
{
    law_a_separator_separates_fields(first@, ':', second@);
    if !first@.contains(':') {
        law_without_separators_there_is_one_field(first@, ':');
    }
}

/// A descriptor goes by the name that is listed in its place. Where none is, or an empty
/// one, it goes by "fd" and its number, which counts from three on.
pub proof fn law_a_descriptor_goes_by_its_listed_name(names: Seq<Seq<char>>, i: int)
    requires
        0 <= i,
    ensures
        i < names.len() && names[i].len() > 0 ==> fd_name(names, i) == names[i],
        i >= names.len() || names[i].len() == 0 ==> fd_name(names, i) == seq!['f', 'd'] + numeral(
            (3 + i) as nat,
        ),
{
    reveal_strlit("fd");
    assert("fd"@ =~= seq!['f', 'd']);
}

/// Only descriptors that lost their name to a later one are among those, each once.
pub proof fn law_only_lost_names_are_replaced(names: Seq<Seq<char>>, n: nat)
    requires
        SD_LISTEN_FDS_START + n - 1 <= i32::MAX,
    ensures
        forall|k: int|
            0 <= k < replaced_fds(names, n).len() ==> exists|i: int, j: int|
                0 <= i < j < n && #[trigger] replaced_fds(names, n)[k] == (
                    fd_name(names, i),
                    (SD_LISTEN_FDS_START + i) as i32,
                ) && #[trigger] fd_name(names, j) == #[trigger] fd_name(names, i),
        replaced_fds(names, n).no_duplicates(),
    decreases n,
{
    if n > 0 {
        let m = (n - 1) as nat;
        law_only_lost_names_are_replaced(names, m);
        let before = first_listeners(names, m);
        let kept = replaced_fds(names, m);
        let all = replaced_fds(names, n);
        let name = fd_name(names, n - 1);
        if before.contains_key(name) {
            law_a_name_leads_to_its_last_descriptor(names, m, name);
            let last = before[name] - SD_LISTEN_FDS_START;
            assert(fd_name(names, last) == name);
            assert(all.last() == (name, (SD_LISTEN_FDS_START + last) as i32));
            assert forall|k: int| 0 <= k < kept.len() implies #[trigger] kept[k] != all.last() by {
                let (i, j) = choose|i: int, j: int|
                    0 <= i < j < m && kept[k] == (
                        fd_name(names, i),
                        (SD_LISTEN_FDS_START + i) as i32,
                    ) && #[trigger] fd_name(names, j) == #[trigger] fd_name(names, i);
                if kept[k] == all.last() {
                    assert(i == last);
                    assert(fd_name(names, j) != name);
                }
            }
        }
        assert forall|k: int| 0 <= k < all.len() implies exists|i: int, j: int|
            0 <= i < j < n && #[trigger] all[k] == (
                fd_name(names, i),
                (SD_LISTEN_FDS_START + i) as i32,
            ) && #[trigger] fd_name(names, j) == #[trigger] fd_name(names, i) by {
            if k < kept.len() {
                assert(all[k] == kept[k]);
                let (i, j) = choose|i: int, j: int|
                    0 <= i < j < m && kept[k] == (
                        fd_name(names, i),
                        (SD_LISTEN_FDS_START + i) as i32,
                    ) && #[trigger] fd_name(names, j) == #[trigger] fd_name(names, i);
                assert(fd_name(names, j) == fd_name(names, i));
            } else {
                let last = before[name] - SD_LISTEN_FDS_START;
                assert(fd_name(names, n - 1) == fd_name(names, last));
            }
        }
        assert(all.no_duplicates()) by {
            assert forall|x: int, y: int| 0 <= x < all.len() && 0 <= y < all.len() && x
                != y implies all[x] != all[y] by {
                if x < kept.len() && y < kept.len() {
                    assert(all[x] == kept[x] && all[y] == kept[y]);
                } else if x < kept.len() {
                    assert(all[x] == kept[x]);
                } else {
                    assert(all[y] == kept[y]);
                }
            }
        }
    }
}

/// A list of names holds exactly the names that it is to hold, each as often, and none
/// comes before one that precedes it.
pub proof fn law_exactly_the_names_are_listed(
    names: Seq<Seq<char>>,
    listeners: Map<Seq<char>, i32>,
    others: Seq<Seq<char>>,
    name: Seq<char>,
    i: int,
    j: int,
)
    requires
        lists_names(names, listeners, others),
    ensures
        names.contains(name) <==> listeners.contains_key(name) || others.contains(name),
        !listeners.contains_key(name) ==> names.to_multiset().count(name)
            == others.to_multiset().count(name),
        listeners.contains_key(name) ==> names.to_multiset().count(name)
            == others.to_multiset().count(name) + 1,
        0 <= i < j < names.len() ==> names[i] == names[j] || comes_before(names[i], names[j]),
{
    broadcast use vstd::seq_lib::group_to_multiset_ensures;

    if 0 <= i < j < names.len() {
        lemma_order_is_total(names[i], names[j]);
    }
    assert(names.contains(name) <==> names.to_multiset().count(name) > 0);
    assert(others.contains(name) <==> others.to_multiset().count(name) > 0);
}

/// There is a lone listener exactly where there is one name and no other.
pub proof fn law_a_lone_listener_has_no_other_beside_it(
    listeners: Map<Seq<char>, i32>,
    name: Seq<char>,
    other: Seq<char>,
)
    ensures
        listeners.contains_key(name) && listeners.contains_key(other) && name != other ==> only_fd(
            listeners,
        ) is None,
        listeners.contains_key(name) && (forall|n: Seq<char>|
            listeners.contains_key(n) ==> n == name) ==> only_fd(listeners) == Some(
            listeners[name],
        ),
        (forall|n: Seq<char>| !listeners.contains_key(n)) ==> only_fd(listeners) is None,
{
    if exists|n: Seq<char>| is_only(listeners, n) {
        let n = choose|n: Seq<char>| is_only(listeners, n);
        assert(set![n].contains(n));
        assert(listeners.contains_key(n));
        assert(listeners.contains_key(name) ==> set![n].contains(name));
        assert(listeners.contains_key(other) ==> set![n].contains(other));
    }
    if listeners.contains_key(name) && (forall|n: Seq<char>|
        listeners.contains_key(n) ==> n == name) {
        assert(listeners.dom() =~= set![name]) by {
            assert forall|n: Seq<char>| listeners.dom().contains(n) implies n == name by {
                assert(listeners.contains_key(n));
            }
        }
        assert(is_only(listeners, name));
    }
}

/// A list of descriptors names every one of them, each in its place.
pub proof fn law_every_descriptor_has_its_entry(fds: Seq<NamedFd>, i: int)
    ensures
        named(fds).len() == fds.len(),
        0 <= i < fds.len() ==> named(fds)[i] == (fds[i].name@, fds[i].fd),
{
}

} // verus!
