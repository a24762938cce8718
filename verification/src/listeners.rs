//! Which sockets the daemon serves, and how it polls them.

use vstd::prelude::*;

use crate::daemon::{DaemonOpts, SocketKind};
use crate::protocol::labelled;
use crate::socket_activation::{
    fd_name, first_listeners, insert_in_order, is_only,
    law_a_lone_listener_has_no_other_beside_it, law_every_descriptor_is_kept, lists_names, named,
    only_fd, replaced_fds, Activation, NamedFd, NamedFds, SD_LISTEN_FDS_START,
};
use crate::text::{
    all_in_quotes, are_plain, debug_texts, in_quotes, is_plain, law_a_list_is_written_in_brackets,
    list_items, listed, quote_all, texts,
};

verus! {

/// The name of the descriptor that carries every request.
pub const ENQUEUE_NAME: &'static str = "enqueue";

/// The name of the descriptor that carries control commands.
pub const CONTROL_NAME: &'static str = "control";

/// How long an idle pass over the listeners sleeps, in milliseconds.
pub const IDLE_SLEEP_MILLIS: u64 = 100;

/// Where a listener comes from.
#[derive(Clone, Copy, Debug, PartialEq, Eq, Structural)]
pub enum Source {
    /// Passed on by systemd, as this descriptor.
    Activated(i32),
    /// Bound at the configured path.
    Bind,
}

/// A listening socket and what it may carry.
#[derive(Clone, Copy, Debug, PartialEq, Eq, Structural)]
pub struct Listener {
    pub source: Source,
    pub kind: SocketKind,
}

/// The sockets to listen on, and what speaks against it.
#[derive(Debug)]
pub struct ListenerPlan {
    /// The sockets, in the order in which they are opened.
    pub listeners: Vec<Listener>,
    /// The names of passed-on descriptors that have no place, in order. They
    /// would silently never be served (and the connection that activated the
    /// daemon would hang), so the daemon fails if there are any.
    pub unrecognized: Vec<String>,
    /// Whether descriptors were passed on, but none that can be the enqueue socket.
    /// Nothing could be queued then, so the daemon fails.
    pub enqueue_missing: bool,
}

/// The passed-on listeners without the control socket.
pub open spec fn without_control(activated: Map<Seq<char>, i32>) -> Map<Seq<char>, i32> {
    activated.remove(CONTROL_NAME@)
}

/// The descriptor that becomes the enqueue socket: the one of that name, or a
/// lone one besides the control socket.
pub open spec fn enqueue_fd(activated: Map<Seq<char>, i32>) -> Option<i32> {
    let rest = without_control(activated);
    if rest.contains_key(ENQUEUE_NAME@) {
        Some(rest[ENQUEUE_NAME@])
    } else {
        only_fd(rest)
    }
}

/// The passed-on listeners that have no place.
pub open spec fn left_over(activated: Map<Seq<char>, i32>) -> Map<Seq<char>, i32> {
    let rest = without_control(activated);
    if rest.contains_key(ENQUEUE_NAME@) {
        rest.remove(ENQUEUE_NAME@)
    } else if only_fd(rest) is Some {
        Map::empty()
    } else {
        rest
    }
}

/// Whether descriptors were passed on, but none that can be the enqueue socket.
pub open spec fn lacks_enqueue(activated: Map<Seq<char>, i32>) -> bool {
    activated != Map::<Seq<char>, i32>::empty() && enqueue_fd(activated) is None
}

/// The sockets of a daemon that was not socket-activated: those of the configured
/// paths.
pub open spec fn bound(has_path: bool) -> Seq<Listener> {
    let enqueue = seq![Listener { source: Source::Bind, kind: SocketKind::Full }];
    if has_path {
        enqueue.push(Listener { source: Source::Bind, kind: SocketKind::ControlOnly })
    } else {
        enqueue
    }
}

/// The sockets of a daemon that was socket-activated: only those passed on.
pub open spec fn taken_over(activated: Map<Seq<char>, i32>) -> Seq<Listener> {
    let enqueue = match enqueue_fd(activated) {
        Some(fd) => seq![Listener { source: Source::Activated(fd), kind: SocketKind::Full }],
        None => seq![],
    };
    if activated.contains_key(CONTROL_NAME@) {
        enqueue.push(
            Listener {
                source: Source::Activated(activated[CONTROL_NAME@]),
                kind: SocketKind::ControlOnly,
            },
        )
    } else {
        enqueue
    }
}

/// The sockets to listen on, in the order in which they are opened.
pub open spec fn planned(activated: Map<Seq<char>, i32>, has_path: bool) -> Seq<Listener> {
    if activated == Map::<Seq<char>, i32>::empty() {
        bound(has_path)
    } else {
        taken_over(activated)
    }
}

/// The names of `fds`, one by one.
pub open spec fn names_of(fds: Seq<(Seq<char>, i32)>) -> Seq<Seq<char>> {
    fds.map_values(|f: (Seq<char>, i32)| f.0)
}

/// Whether the daemon fails on what was passed on: a descriptor has no place, or
/// there is no enqueue socket.
pub open spec fn is_refused(
    activated: Map<Seq<char>, i32>,
    replaced: Seq<(Seq<char>, i32)>,
) -> bool {
    ||| left_over(activated) != Map::<Seq<char>, i32>::empty()
    ||| replaced.len() > 0
    ||| lacks_enqueue(activated)
}

/// Whether `message` is what the daemon says when it fails: the names without a
/// place, in a list of what `Debug` writes for each; or that there is no enqueue
/// socket. Names with nothing to escape stand there between double quotes.
pub open spec fn is_refusal(message: Seq<char>, unrecognized: Seq<Seq<char>>) -> bool {
    if unrecognized.len() > 0 {
        &&& message == "unrecognized socket-activation fds"@ + ": "@ + listed(
            debug_texts(unrecognized),
        )
        &&& are_plain(unrecognized) ==> message == "unrecognized socket-activation fds"@ + ": "@
            + listed(all_in_quotes(unrecognized))
    } else {
        message == "no enqueue socket among the socket-activation fds"@
    }
}

impl ListenerPlan {
    /// Why the daemon fails on this plan, if it does.
    pub fn refusal(&self) -> (message: Option<String>)
        ensures
            message is Some <==> self.unrecognized@.len() > 0 || self.enqueue_missing,
            message matches Some(m) ==> is_refusal(m@, texts(self.unrecognized@)),
    {
        assert(texts(self.unrecognized@).len() == self.unrecognized@.len());
        if self.unrecognized.len() > 0 {
            let names = list_items(&quote_all(&self.unrecognized));
            Some(labelled("unrecognized socket-activation fds", names.as_str()))
        } else if self.enqueue_missing {
            Some("no enqueue socket among the socket-activation fds".to_owned())
        } else {
            None
        }
    }
}

/// Plans the listening sockets, each tagged with its capability. Takes over what
/// systemd passed on (named `enqueue` / `control` fds, so systemd owns their
/// permissions). The configured paths are for a daemon that was not socket-activated
/// (dev / non-systemd), and for no other.
pub fn plan_listeners(activation: Activation, opts: &DaemonOpts) -> (plan: ListenerPlan)
    requires
        activation.listeners.wf(),
    ensures
        plan.listeners@ == planned(activation.listeners@, opts.control_socket is Some),
        lists_names(
            texts(plan.unrecognized@),
            left_over(activation.listeners@),
            names_of(named(activation.replaced@)),
        ),
        plan.enqueue_missing == lacks_enqueue(activation.listeners@),
{
    let ghost passed = activation.listeners@;
    let mut activated = activation.listeners;
    let mut listeners: Vec<Listener> = Vec::new();
    let mut enqueue_missing: bool = false;
    if activated.is_empty() {
        listeners.push(Listener { source: Source::Bind, kind: SocketKind::Full });
        if opts.control_socket.is_some() {
            listeners.push(Listener { source: Source::Bind, kind: SocketKind::ControlOnly });
        }
        proof {
            lemma_nothing_is_left_of_nothing();
        }
    } else {
        // Claim the control fd first so a lone activated fd can't be mis-adopted as
        // the enqueue socket by the single-fd fallback below.
        let control = activated.remove(CONTROL_NAME);

        let ghost rest = activated@;
        let enqueue = match activated.remove(ENQUEUE_NAME) {
            Some(fd) => Some(fd),
            None => {
                assert(activated@ =~= rest);
                activated.take_single()
            },
        };
        match enqueue {
            Some(fd) => {
                listeners.push(Listener { source: Source::Activated(fd), kind: SocketKind::Full });
            },
            None => {
                enqueue_missing = true;
            },
        }
        if let Some(fd) = control {
            listeners.push(
                Listener { source: Source::Activated(fd), kind: SocketKind::ControlOnly },
            );
        }
    }
    assert(listeners@ =~= planned(passed, opts.control_socket is Some));
    let unrecognized = add_names(activated.sorted_names(), &activation.replaced, &activated);
    ListenerPlan { listeners, unrecognized, enqueue_missing }
}

/// Where nothing was passed on, nothing is left over.
proof fn lemma_nothing_is_left_of_nothing()
    ensures
        left_over(Map::empty()) == Map::<Seq<char>, i32>::empty(),
        enqueue_fd(Map::empty()) is None,
{
    let none = Map::<Seq<char>, i32>::empty();
    assert(without_control(none) =~= none);
    assert forall|name: Seq<char>| !is_only(none, name) by {
        assert(set![name].contains(name));
        assert(!none.contains_key(name));
    }
}

/// Puts the names of `replaced` in their places among those of `left`.
fn add_names(names: Vec<String>, replaced: &Vec<NamedFd>, left: &NamedFds) -> (all: Vec<String>)
    requires
        lists_names(texts(names@), left@, seq![]),
    ensures
        lists_names(texts(all@), left@, names_of(named(replaced@))),
{
    let ghost others = names_of(named(replaced@));
    let mut all = names;
    let mut i: usize = 0;
    assert(others.take(0) =~= seq![]);
    while i < replaced.len()
        invariant
            i <= replaced@.len(),
            others == names_of(named(replaced@)),
            lists_names(texts(all@), left@, others.take(i as int)),
        decreases replaced@.len() - i,
    {
        let ghost before = texts(all@);
        insert_in_order(&mut all, replaced[i].name.clone());
        proof {
            let text = replaced@[i as int].name@;
            assert(others[i as int] == text);
            assert(others.take(i + 1) =~= others.take(i as int).push(text));
            vstd::seq_lib::to_multiset_build(others.take(i as int), text);
            assert forall|name: Seq<char>| #[trigger]
                texts(all@).to_multiset().count(name) == (if left@.contains_key(name) {
                    1nat
                } else {
                    0nat
                }) + others.take(i + 1).to_multiset().count(name) by {
                assert(before.to_multiset().count(name) == (if left@.contains_key(name) {
                    1nat
                } else {
                    0nat
                }) + others.take(i as int).to_multiset().count(name));
                let one = if name == text {
                    1nat
                } else {
                    0nat
                };
                assert(before.to_multiset().insert(text).count(name)
                    == before.to_multiset().count(name) + one);
                assert(others.take(i as int).to_multiset().insert(text).count(name)
                    == others.take(i as int).to_multiset().count(name) + one);
            }
        }
        i += 1;
    }
    assert(others.take(i as int) =~= others);
    all
}

/// Resolves the listening sockets, or says why the daemon fails: a passed-on
/// descriptor that has no place would silently never be served, and without an
/// enqueue socket nothing could be queued.
pub fn build_listeners(activation: Activation, opts: &DaemonOpts) -> (resolved: Result<
    Vec<Listener>,
    String,
>)
    requires
        activation.listeners.wf(),
    ensures
        resolved is Err <==> is_refused(activation.listeners@, named(activation.replaced@)),
        resolved matches Ok(listeners) ==> listeners@ == planned(
            activation.listeners@,
            opts.control_socket is Some,
        ),
        resolved matches Err(message) ==> exists|unrecognized: Seq<Seq<char>>|
            is_refusal(message@, unrecognized) && #[trigger] lists_names(
                unrecognized,
                left_over(activation.listeners@),
                names_of(named(activation.replaced@)),
            ),
{
    let ghost left = left_over(activation.listeners@);
    let ghost others = names_of(named(activation.replaced@));
    let plan = plan_listeners(activation, opts);
    proof {
        lemma_listed_exactly_if_any(texts(plan.unrecognized@), left, others);
        assert(texts(plan.unrecognized@).len() == plan.unrecognized@.len());
    }
    match plan.refusal() {
        Some(message) => {
            assert(is_refusal(message@, texts(plan.unrecognized@)) && lists_names(
                texts(plan.unrecognized@),
                left,
                others,
            ));
            Err(message)
        },
        None => Ok(plan.listeners),
    }
}

/// A list of names is empty exactly when there is none to list.
proof fn lemma_listed_exactly_if_any(
    names: Seq<Seq<char>>,
    left: Map<Seq<char>, i32>,
    others: Seq<Seq<char>>,
)
    requires
        lists_names(names, left, others),
    ensures
        names.len() > 0 <==> left != Map::<Seq<char>, i32>::empty() || others.len() > 0,
{
    broadcast use vstd::seq_lib::group_to_multiset_ensures;

    if names.len() > 0 {
        let name = names[0];
        assert(names.contains(name));
        assert(names.to_multiset().count(name) > 0);
        if others.len() == 0 {
            assert(!others.contains(name));
            assert(left.contains_key(name));
        }
    }
    if others.len() > 0 {
        let name = others[0];
        assert(others.contains(name));
        assert(names.to_multiset().count(name) > 0);
        assert(names.contains(name));
    }
    if left != Map::<Seq<char>, i32>::empty() {
        if forall|name: Seq<char>| !left.contains_key(name) {
            assert(left =~= Map::<Seq<char>, i32>::empty());
        }
        let name = choose|name: Seq<char>| left.contains_key(name);
        assert(names.to_multiset().count(name) > 0);
        assert(names.contains(name));
    }
}

/// The configured paths are bound exactly when the daemon was not socket-activated.
pub proof fn law_paths_are_bound_only_without_activation(
    activated: Map<Seq<char>, i32>,
    has_path: bool,
)
    ensures
        activated != Map::<Seq<char>, i32>::empty() ==> forall|i: int|
            0 <= i < planned(activated, has_path).len() ==> (#[trigger] planned(
                activated,
                has_path,
            )[i]).source is Activated,
        activated == Map::<Seq<char>, i32>::empty() ==> forall|i: int|
            0 <= i < planned(activated, has_path).len() ==> (#[trigger] planned(
                activated,
                has_path,
            )[i]).source is Bind,
{
}

/// Where the daemon does not fail, exactly one socket may enqueue, and it comes
/// first; any other is the control socket.
pub proof fn law_one_socket_may_enqueue(
    activated: Map<Seq<char>, i32>,
    replaced: Seq<(Seq<char>, i32)>,
    has_path: bool,
)
    requires
        !is_refused(activated, replaced),
    ensures
        1 <= planned(activated, has_path).len() <= 2,
        forall|i: int|
            0 <= i < planned(activated, has_path).len() ==> ((#[trigger] planned(
                activated,
                has_path,
            )[i]).kind is Full <==> i == 0),
{
}

/// A daemon that was not socket-activated never fails on it.
pub proof fn law_no_activation_is_no_failure()
    ensures
        !is_refused(Map::empty(), seq![]),
{
    lemma_nothing_is_left_of_nothing();
}

/// The descriptor that becomes the enqueue socket was passed on under another
/// name than the control socket's: a lone control socket is never adopted, and the
/// daemon fails on it.
pub proof fn law_the_control_fd_never_enqueues(
    activated: Map<Seq<char>, i32>,
    replaced: Seq<(Seq<char>, i32)>,
)
    ensures
        enqueue_fd(activated) matches Some(fd) ==> exists|name: Seq<char>|
            name != CONTROL_NAME@ && #[trigger] activated.contains_key(name) && activated[name]
                == fd,
        activated.dom() == set![CONTROL_NAME@] ==> enqueue_fd(activated) is None && is_refused(
            activated,
            replaced,
        ),
{
    let rest = without_control(activated);
    if rest.contains_key(ENQUEUE_NAME@) {
        assert(ENQUEUE_NAME@ != CONTROL_NAME@);
        assert(activated.contains_key(ENQUEUE_NAME@));
    } else if only_fd(rest) is Some {
        let name = choose|name: Seq<char>| is_only(rest, name);
        assert(set![name].contains(name));
        assert(rest.contains_key(name));
        assert(activated.contains_key(name));
    }
    if activated.dom() == set![CONTROL_NAME@] {
        if enqueue_fd(activated) is Some {
            let name = choose|name: Seq<char>|
                name != CONTROL_NAME@ && #[trigger] activated.contains_key(name);
            assert(set![CONTROL_NAME@].contains(name));
        }
        assert(set![CONTROL_NAME@].contains(CONTROL_NAME@));
        assert(activated.contains_key(CONTROL_NAME@));
    }
}

/// Every descriptor that systemd passes on is served, or the daemon fails and names
/// it: none is silently never served.
pub proof fn law_no_descriptor_goes_unserved(
    names: Seq<Seq<char>>,
    n: nat,
    has_path: bool,
    unrecognized: Seq<Seq<char>>,
    i: int,
)
    requires
        0 <= i < n,
        lists_names(
            unrecognized,
            left_over(first_listeners(names, n)),
            names_of(replaced_fds(names, n)),
        ),
    ensures
        ({
            let activated = first_listeners(names, n);
            let fd = (SD_LISTEN_FDS_START + i) as i32;
            ||| exists|k: int|
                0 <= k < planned(activated, has_path).len() && (#[trigger] planned(
                    activated,
                    has_path,
                )[k]).source == Source::Activated(fd)
            ||| is_refused(activated, replaced_fds(names, n)) && unrecognized.contains(
                fd_name(names, i),
            )
        }),
{
    broadcast use vstd::seq_lib::group_to_multiset_ensures;

    let activated = first_listeners(names, n);
    let replaced = replaced_fds(names, n);
    let others = names_of(replaced);
    let name = fd_name(names, i);
    let fd = (SD_LISTEN_FDS_START + i) as i32;
    let rest = without_control(activated);
    let plan = planned(activated, has_path);
    law_every_descriptor_is_kept(names, n, i);
    if replaced.contains((name, fd)) {
        let k = choose|k: int| 0 <= k < replaced.len() && replaced[k] == (name, fd);
        assert(others[k] == name);
        assert(others.contains(name));
        assert(unrecognized.to_multiset().count(name) > 0);
    } else {
        assert(activated.contains_key(name));
        assert(activated != Map::<Seq<char>, i32>::empty());
        if left_over(activated).contains_key(name) {
            assert(unrecognized.to_multiset().count(name) > 0);
        } else if name == CONTROL_NAME@ {
            assert(plan[plan.len() - 1].source == Source::Activated(fd));
        } else {
            assert(rest.contains_key(name));
            if !rest.contains_key(ENQUEUE_NAME@) {
                let only = choose|m: Seq<char>| is_only(rest, m);
                assert(set![only].contains(name));
            }
            assert(plan[0].source == Source::Activated(fd));
        }
    }
}

/// What came of asking a listener for a connection.
#[derive(Clone, Copy, Debug, PartialEq, Eq, Structural)]
pub enum Accepted {
    /// A connection.
    Connection,
    /// Nothing to accept.
    WouldBlock,
    /// Accepting failed.
    Failed,
}

/// What the accept loop does next.
#[derive(Clone, Copy, Debug, PartialEq, Eq, Structural)]
pub enum AcceptAction {
    /// Ask the listener of this index for a connection.
    Poll(usize),
    /// Sleep so many milliseconds.
    Sleep(u64),
    /// End the loop.
    Stop,
}

/// The accept loop: passes over the listeners until a shutdown. Every listener is
/// polled in each pass; the loop only sleeps when all would block, so idle CPU
/// stays flat regardless of how many sockets it serves.
#[derive(Clone, Copy, Debug, PartialEq, Eq, Structural)]
pub struct AcceptLoop {
    /// How many listeners there are.
    pub listeners: usize,
    /// The listener to poll next; all of them, at the end of a pass.
    pub at: usize,
    /// Whether the pass has served a connection, or slept.
    pub settled: bool,
}

impl AcceptLoop {
    /// The next listener is one of those there are, or the pass is over.
    pub open spec fn wf(self) -> bool {
        self.at <= self.listeners
    }

    /// The loop after its next action, and the action. A shutdown is seen between
    /// two passes.
    pub open spec fn next(self, shutdown: bool) -> (AcceptLoop, AcceptAction) {
        if self.at < self.listeners {
            (AcceptLoop { at: (self.at + 1) as usize, ..self }, AcceptAction::Poll(self.at))
        } else if !self.settled {
            (AcceptLoop { settled: true, ..self }, AcceptAction::Sleep(IDLE_SLEEP_MILLIS))
        } else if shutdown {
            (self, AcceptAction::Stop)
        } else if self.listeners > 0 {
            (AcceptLoop { at: 1, settled: false, ..self }, AcceptAction::Poll(0))
        } else {
            (self, AcceptAction::Sleep(IDLE_SLEEP_MILLIS))
        }
    }

    /// A loop over so many listeners, before its first pass.
    pub fn new(listeners: usize) -> (accept: Self)
        ensures
            accept.wf(),
            accept == (AcceptLoop { listeners, at: listeners, settled: true }),
    {
        AcceptLoop { listeners, at: listeners, settled: true }
    }

    /// Decides what comes next.
    pub fn step(&mut self, shutdown: bool) -> (action: AcceptAction)
        requires
            old(self).wf(),
        ensures
            final(self).wf(),
            (*final(self), action) == old(self).next(shutdown),
    {
        if self.at < self.listeners {
            let polled: usize = self.at;
            self.at = self.at + 1;
            AcceptAction::Poll(polled)
        } else if !self.settled {
            self.settled = true;
            AcceptAction::Sleep(IDLE_SLEEP_MILLIS)
        } else if shutdown {
            AcceptAction::Stop
        } else if self.listeners > 0 {
            self.at = 1;
            self.settled = false;
            AcceptAction::Poll(0)
        } else {
            AcceptAction::Sleep(IDLE_SLEEP_MILLIS)
        }
    }

    /// Takes in what came of a poll. A failure is only worth a warning.
    pub fn record(&mut self, accepted: Accepted)
        ensures
            *final(self) == (AcceptLoop {
                settled: old(self).settled || accepted is Connection,
                ..*old(self)
            }),
    {
        if accepted == Accepted::Connection {
            self.settled = true;
        }
    }
}

/// Where a pass leads in which the polls come out as `results` say.
pub open spec fn after_polls(accept: AcceptLoop, results: Seq<Accepted>) -> AcceptLoop
    decreases results.len(),
{
    if results.len() == 0 {
        accept
    } else {
        let before = after_polls(accept, results.drop_last()).next(false).0;
        AcceptLoop { settled: before.settled || results.last() is Connection, ..before }
    }
}

/// A pass polls every listener once, in order; after it the loop sleeps exactly
/// when no listener had a connection.
pub proof fn law_the_loop_sleeps_only_when_idle(listeners: usize, results: Seq<Accepted>)
    requires
        0 < results.len() <= listeners,
    ensures
        ({
            let start = AcceptLoop { listeners, at: listeners, settled: true };
            let pass = after_polls(start, results);
            &&& after_polls(start, results.drop_last()).next(false).1 == AcceptAction::Poll(
                (results.len() - 1) as usize,
            )
            &&& pass.at == results.len()
            &&& pass.listeners == listeners
            &&& pass.settled <==> exists|i: int|
                0 <= i < results.len() && #[trigger] results[i] is Connection
            &&& results.len() == listeners ==> (pass.next(false).1 is Sleep <==> !(exists|i: int|
                0 <= i < results.len() && #[trigger] results[i] is Connection))
        }),
    decreases results.len(),
{
    let head = results.drop_last();
    let last = results.len() - 1;
    assert(results[last] == results.last());
    if head.len() > 0 {
        law_the_loop_sleeps_only_when_idle(listeners, head);
        assert forall|i: int| 0 <= i < head.len() implies #[trigger] head[i] == results[i] by {}
        if exists|i: int| 0 <= i < head.len() && #[trigger] head[i] is Connection {
            let i = choose|i: int| 0 <= i < head.len() && #[trigger] head[i] is Connection;
            assert(results[i] is Connection);
        }
        if exists|i: int| 0 <= i < results.len() && #[trigger] results[i] is Connection {
            let i = choose|i: int| 0 <= i < results.len() && #[trigger] results[i] is Connection;
            if i < last {
                assert(head[i] is Connection);
            }
        }
    } else {
        reveal_with_fuel(after_polls, 2);
    }
}

/// Sockets go by their names. The descriptor named "enqueue" carries every request; where
/// there is none of that name, a lone descriptor besides the control socket does. The one
/// named "control" carries control commands only. A daemon that got no descriptor binds
/// its own path, and the control path if it has one. No other socket is planned.
pub proof fn law_sockets_go_by_their_names(
    activated: Map<Seq<char>, i32>,
    has_path: bool,
    name: Seq<char>,
)
    ensures
        ({
            let plan = planned(activated, has_path);
            let control = if activated.contains_key("control"@) {
                1int
            } else {
                0
            };
            let is_lone = activated.contains_key(name) && name != "control"@ && forall|n: Seq<char>|
                activated.contains_key(n) && n != "control"@ ==> n == name;
            &&& activated.contains_key("enqueue"@) ==> {
                &&& plan.len() == 1 + control
                &&& plan[0] == (Listener {
                    source: Source::Activated(activated["enqueue"@]),
                    kind: SocketKind::Full,
                })
            }
            &&& is_lone ==> {
                &&& plan.len() == 1 + control
                &&& plan[0] == (Listener {
                    source: Source::Activated(activated[name]),
                    kind: SocketKind::Full,
                })
            }
            &&& activated.contains_key("control"@) ==> plan.len() > 0 && plan.last() == (Listener {
                source: Source::Activated(activated["control"@]),
                kind: SocketKind::ControlOnly,
            })
            &&& (forall|n: Seq<char>| !activated.contains_key(n)) ==> {
                &&& plan.len() == if has_path {
                    2int
                } else {
                    1
                }
                &&& plan[0] == (Listener { source: Source::Bind, kind: SocketKind::Full })
                &&& has_path ==> plan[1] == (Listener {
                    source: Source::Bind,
                    kind: SocketKind::ControlOnly,
                })
            }
        }),
{
    let rest = without_control(activated);
    let plan = planned(activated, has_path);
    lemma_names_differ();
    if activated.contains_key("enqueue"@) {
        assert(activated != Map::<Seq<char>, i32>::empty());
        assert(rest.contains_key("enqueue"@));
    }
    if activated.contains_key("control"@) {
        assert(activated != Map::<Seq<char>, i32>::empty());
    }
    let is_lone = activated.contains_key(name) && name != "control"@ && forall|n: Seq<char>|
        activated.contains_key(n) && n != "control"@ ==> n == name;
    if is_lone {
        assert(activated != Map::<Seq<char>, i32>::empty());
        assert(rest.contains_key(name));
        assert forall|n: Seq<char>| rest.contains_key(n) implies n == name by {
            assert(activated.contains_key(n));
        }
        law_a_lone_listener_has_no_other_beside_it(rest, name, name);
        if rest.contains_key("enqueue"@) {
            assert(name == "enqueue"@);
        }
    }
    if forall|n: Seq<char>| !activated.contains_key(n) {
        assert(activated =~= Map::<Seq<char>, i32>::empty());
    }
}

/// The two names are not the same.
proof fn lemma_names_differ()
    ensures
        "enqueue"@ != "control"@,
        CONTROL_NAME@ == "control"@,
        ENQUEUE_NAME@ == "enqueue"@,
{
    reveal_strlit("enqueue");
    reveal_strlit("control");
    assert("enqueue"@[0] != "control"@[0]);
}

/// A descriptor has no place exactly if it is neither the control socket nor the enqueue
/// socket: with one named "enqueue", any third; without, any but a lone one.
pub proof fn law_what_has_no_place_is_left_over(
    activated: Map<Seq<char>, i32>,
    name: Seq<char>,
    other: Seq<char>,
)
    ensures
        !left_over(activated).contains_key("control"@),
        !left_over(activated).contains_key("enqueue"@),
        left_over(activated).contains_key(name) ==> activated.contains_key(name),
        activated.contains_key("enqueue"@) ==> (left_over(activated).contains_key(name)
            <==> activated.contains_key(name) && name != "enqueue"@ && name != "control"@),
        !activated.contains_key("enqueue"@) && activated.contains_key(name)
            && activated.contains_key(other) && name != other && name != "control"@ && other
            != "control"@ ==> left_over(activated).contains_key(name),
        !activated.contains_key("enqueue"@) && activated.contains_key(name) && name != "control"@
            && (forall|n: Seq<char>|
            activated.contains_key(n) && n != "control"@ ==> n == name) ==> !left_over(
            activated,
        ).contains_key(name),
{
    let rest = without_control(activated);
    lemma_names_differ();
    if activated.contains_key("enqueue"@) {
        assert(rest.contains_key("enqueue"@));
    }
    if rest.contains_key("enqueue"@) {
        assert(activated.contains_key("enqueue"@));
    }
    law_a_lone_listener_has_no_other_beside_it(rest, name, other);
    if activated.contains_key(name) && name != "control"@ && (forall|n: Seq<char>|
        activated.contains_key(n) && n != "control"@ ==> n == name) {
        assert(rest.contains_key(name));
        assert forall|n: Seq<char>| rest.contains_key(n) implies n == name by {
            assert(activated.contains_key(n));
        }
    }
}

/// The daemon fails exactly when a descriptor has no place, one lost its name to another,
/// or descriptors came but none for the enqueue socket.
pub proof fn law_the_daemon_fails_exactly_on_a_misfit(
    activated: Map<Seq<char>, i32>,
    replaced: Seq<(Seq<char>, i32)>,
    name: Seq<char>,
)
    ensures
        left_over(activated).contains_key(name) ==> is_refused(activated, replaced),
        replaced.len() > 0 ==> is_refused(activated, replaced),
        (exists|n: Seq<char>| activated.contains_key(n)) && !activated.contains_key("enqueue"@)
            && (forall|n: Seq<char>| activated.contains_key(n) ==> n == "control"@) ==> is_refused(
            activated,
            replaced,
        ),
        replaced.len() == 0 && activated.contains_key("enqueue"@) && (forall|n: Seq<char>|
            activated.contains_key(n) ==> n == "enqueue"@ || n == "control"@) ==> !is_refused(
            activated,
            replaced,
        ),
        replaced.len() == 0 && activated.contains_key(name) && name != "control"@ && (forall|
            n: Seq<char>,
        |
            activated.contains_key(n) && n != "control"@ ==> n == name) ==> !is_refused(
            activated,
            replaced,
        ),
        replaced.len() == 0 && (forall|n: Seq<char>| !activated.contains_key(n)) ==> !is_refused(
            activated,
            replaced,
        ),
{
    let none = Map::<Seq<char>, i32>::empty();
    let rest = without_control(activated);
    lemma_names_differ();
    lemma_nothing_is_left_of_nothing();
    law_sockets_go_by_their_names(activated, false, name);
    law_what_has_no_place_is_left_over(activated, name, name);
    law_a_lone_listener_has_no_other_beside_it(rest, name, name);
    if (exists|n: Seq<char>| activated.contains_key(n)) && !activated.contains_key("enqueue"@) && (
    forall|n: Seq<char>| activated.contains_key(n) ==> n == "control"@) {
        assert(activated != none);
        assert forall|n: Seq<char>| !rest.contains_key(n) by {
            if rest.contains_key(n) {
                assert(activated.contains_key(n));
            }
        }
    }
    if activated.contains_key("enqueue"@) && (forall|n: Seq<char>|
        activated.contains_key(n) ==> n == "enqueue"@ || n == "control"@) {
        assert(rest.contains_key("enqueue"@));
        assert forall|n: Seq<char>| !left_over(activated).contains_key(n) by {
            law_what_has_no_place_is_left_over(activated, n, n);
        }
        assert(left_over(activated) =~= none);
    }
    if activated.contains_key(name) && name != "control"@ && (forall|n: Seq<char>|
        activated.contains_key(n) && n != "control"@ ==> n == name) {
        assert(rest.contains_key(name));
        assert forall|n: Seq<char>| rest.contains_key(n) implies n == name by {
            assert(activated.contains_key(n));
        }
        assert forall|n: Seq<char>| !left_over(activated).contains_key(n) by {
            law_what_has_no_place_is_left_over(activated, n, n);
        }
        assert(left_over(activated) =~= none);
    }
    if forall|n: Seq<char>| !activated.contains_key(n) {
        assert(activated =~= none);
    }
}

/// The daemon names what has no place, in a list in which each plain name stands between
/// double quotes; without such a name it says that the enqueue socket is missing.
pub proof fn law_a_refusal_names_what_has_no_place(
    message: Seq<char>,
    names: Seq<Seq<char>>,
    name: Seq<char>,
)
    requires
        is_refusal(message, names),
    ensures
        names.len() == 0 ==> message == "no enqueue socket among the socket-activation fds"@,
        names == seq![name] && is_plain(name) ==> message
            == "unrecognized socket-activation fds"@ + ": "@ + (seq!['[', '"'] + name + seq![
            '"',
            ']',
        ]),
        names.len() > 0 ==> "unrecognized socket-activation fds"@.is_prefix_of(message),
        are_plain(names) && names.len() > 0 ==> message == "unrecognized socket-activation fds"@
            + ": "@ + listed(names.map_values(|n: Seq<char>| seq!['"'] + n + seq!['"'])),
{
    if names.len() > 0 {
        assert(names.map_values(|n: Seq<char>| seq!['"'] + n + seq!['"']) =~= all_in_quotes(names));
    }
    if names == seq![name] && is_plain(name) {
        assert(are_plain(names));
        assert(all_in_quotes(names) =~= seq![in_quotes(name)]);
        law_a_list_is_written_in_brackets(seq![], in_quotes(name));
        assert(listed(all_in_quotes(names)) =~= seq!['[', '"'] + name + seq!['"', ']']);
    }
}

/// The accept loop finishes each pass: it polls the listener whose turn it is, even
/// during a shutdown. At the end of a pass that served nothing it sleeps a tenth of a
/// second, once. Then it stops if the daemon is shutting down, and only then; and else it
/// begins anew with the first listener.
pub proof fn law_the_loop_stops_exactly_between_passes(accept: AcceptLoop, shutdown: bool)
    requires
        accept.wf(),
    ensures
        ({
            let (then, action) = accept.next(shutdown);
            &&& then.listeners == accept.listeners
            &&& then.wf()
            &&& accept.at < accept.listeners ==> {
                &&& action == AcceptAction::Poll(accept.at)
                &&& then.at == accept.at + 1
                &&& then.settled == accept.settled
            }
            &&& accept.at == accept.listeners && !accept.settled ==> {
                &&& action == AcceptAction::Sleep(100)
                &&& then.at == accept.at
                &&& then.settled
            }
            &&& accept.at == accept.listeners && accept.settled && shutdown ==> action
                == AcceptAction::Stop
            &&& accept.at == accept.listeners && accept.settled && !shutdown && accept.listeners
                > 0 ==> {
                &&& action == AcceptAction::Poll(0)
                &&& then.at == 1
                &&& !then.settled
            }
            &&& accept.listeners == 0 && accept.settled && !shutdown ==> action
                == AcceptAction::Sleep(100)
            &&& action is Stop ==> shutdown
        }),
{
}

/// The names of descriptors are those of every one of them, each in its place.
pub proof fn law_every_descriptor_gives_its_name(fds: Seq<(Seq<char>, i32)>, i: int)
    ensures
        names_of(fds).len() == fds.len(),
        0 <= i < fds.len() ==> names_of(fds)[i] == fds[i].0,
{
}

} // verus!
