//! The command registry and the text-message dispatcher.
//!
//! A `CommandFramework` maps command names to either a leaf command or
//! a nested group of subcommands, bounded at three routing levels.  It
//! is built once at startup and only read afterwards.  Resolution walks
//! a path of names through the tree: a leaf ends the walk early (extra
//! path elements become handler arguments), a group demands an exact
//! child match.

use vstd::prelude::*;
use vstd::string::StrSliceExecFns;
use vstd::string::StringExecFns;

use crate::ctx::{CommandContext, MessagePayload};
use crate::strutil::{find_token_end, lemma_token_len, str_eq, token_len};

verus! {

broadcast use vstd::string::group_string_axioms;

/// Which surface an event came in on.
#[derive(PartialEq, Eq, Structural, Clone, Copy, Debug)]
pub enum CommandType {
    SLASH,
    TEXT,
}

/// Identifies the handler body a command runs; the embedding
/// application maps each identifier to the function it stands for.
pub type HandlerId = u64;

pub const HANDLER_HI_ECHO: u64 = 1;

pub const HANDLER_PING: u64 = 2;

pub const HANDLER_UWU: u64 = 3;

pub const HANDLER_GUILD_INFO: u64 = 4;

pub const HANDLER_STATS: u64 = 5;

/// Describes one invocable command or subcommand leaf.
pub struct CommandInstance {
    /// Unique within its enclosing scope; immutable after registration.
    pub name: String,
    pub description: String,
    /// The handler run when the command is dispatched.
    pub handler: HandlerId,
}

/// One node of the registry: a leaf bound to a handler, or a group of
/// further nodes reachable only through structured interactions.
pub enum CommandGroup {
    Command(CommandInstance),
    CommandGroup(Vec<(String, CommandGroup)>),
}

pub type CommandEntry = (String, CommandGroup);

/// The registry of commands, built during startup and read-only while
/// events are dispatched.
pub struct CommandFramework {
    commands: Vec<CommandEntry>,
}

/// Why a registration was refused.
#[derive(PartialEq, Eq, Structural, Clone, Copy, Debug)]
pub enum RegisterError {
    /// The exact path is already taken.
    DuplicateRegistration,
    /// The path is empty or deeper than the three routing levels.
    InvalidPath,
}

/// The node bound to `name` among `es`: the first entry with that name.
pub open spec fn find_entry(es: Seq<CommandEntry>, name: Seq<char>) -> Option<CommandGroup>
    decreases es.len(),
{
    if es.len() == 0 {
        None
    } else if es[0].0@ == name {
        Some(es[0].1)
    } else {
        find_entry(es.drop_first(), name)
    }
}

/// The descriptor a path leads to among the entries `es`, if any: a
/// leaf ends the walk (remaining elements are ignored), a group
/// consumes one element per level.
pub open spec fn found_at(es: Seq<CommandEntry>, path: Seq<Seq<char>>) -> Option<CommandInstance>
    decreases path.len(), 0int,
{
    if path.len() == 0 {
        None
    } else {
        match find_entry(es, path[0]) {
            None => None,
            Some(n) => node_found(n, path.drop_first()),
        }
    }
}

/// The descriptor a path leads to below one node.
pub open spec fn node_found(n: CommandGroup, path: Seq<Seq<char>>) -> Option<CommandInstance>
    decreases path.len(), 1int,
{
    match n {
        CommandGroup::Command(d) => Some(d),
        CommandGroup::CommandGroup(sub) => found_at(sub@, path),
    }
}

/// Outcome of walking a path through entries: the matched leaf, a miss
/// at the root, or a walk that ended inside a group.
pub enum SpecResolved {
    Found(CommandInstance),
    NotFound,
    Incomplete(Seq<CommandEntry>),
}

/// Resolution of a path against the entries `es`; `at_root` tells a
/// first-element miss (`NotFound`) apart from a deeper one
/// (`Incomplete`).
pub open spec fn spec_resolve(es: Seq<CommandEntry>, path: Seq<Seq<char>>, at_root: bool)
    -> SpecResolved
    decreases path.len(),
{
    if path.len() == 0 {
        SpecResolved::Incomplete(es)
    } else {
        match find_entry(es, path[0]) {
            None => if at_root {
                SpecResolved::NotFound
            } else {
                SpecResolved::Incomplete(es)
            },
            Some(CommandGroup::Command(d)) => SpecResolved::Found(d),
            Some(CommandGroup::CommandGroup(sub)) => spec_resolve(sub@, path.drop_first(), false),
        }
    }
}

/// Resolution yields a leaf exactly where `found_at` names one.
pub proof fn lemma_resolve_found(es: Seq<CommandEntry>, path: Seq<Seq<char>>, at_root: bool)
    ensures
        forall|d: CommandInstance|
            spec_resolve(es, path, at_root) == SpecResolved::Found(d) <==> found_at(es, path)
                == Some(d),
    decreases path.len(),
{
    if path.len() == 0 {
    } else {
        match find_entry(es, path[0]) {
            None => {},
            Some(n) => match n {
                CommandGroup::Command(_) => {},
                CommandGroup::CommandGroup(sub) => {
                    lemma_resolve_found(sub@, path.drop_first(), false);
                },
            },
        }
    }
}

/// Whether a fresh leaf can be inserted at `path`: the walk may cross
/// existing groups, but no leaf may stand at or along the path, and
/// nothing may occupy the exact final spot.
pub open spec fn can_insert(es: Seq<CommandEntry>, path: Seq<Seq<char>>) -> bool
    decreases path.len(),
{
    if path.len() == 0 {
        false
    } else {
        match find_entry(es, path[0]) {
            None => true,
            Some(CommandGroup::Command(_)) => false,
            Some(CommandGroup::CommandGroup(sub)) => path.len() > 1 && can_insert(
                sub@,
                path.drop_first(),
            ),
        }
    }
}

/// Well-formedness of one node that may nest at most `levels` further
/// routing levels below itself: a group needs room left for its
/// children, a leaf ends the nesting.
pub open spec fn node_wf(n: CommandGroup, levels: nat) -> bool
    decreases n,
{
    match n {
        CommandGroup::Command(_) => true,
        CommandGroup::CommandGroup(sub) => levels > 0 && entries_wf(sub@, (levels - 1) as nat),
    }
}

/// Well-formedness of the entries of one scope: names are unique
/// within the scope, and every child node is well-formed with one
/// level less to spare.
pub open spec fn entries_wf(es: Seq<CommandEntry>, levels: nat) -> bool
    decreases es,
{
    &&& (forall|a: int, b: int|
        #![trigger es[a], es[b]]
        0 <= a < b < es.len() ==> es[a].0@ != es[b].0@)
    &&& (forall|k: int| 0 <= k < es.len() ==> node_wf(#[trigger] es[k].1, levels))
}

/// An absent name differs from every name in the scope.
proof fn lemma_find_entry_absent(es: Seq<CommandEntry>, n: Seq<char>)
    requires
        find_entry(es, n) is None,
    ensures
        forall|k: int| 0 <= k < es.len() ==> es[k].0@ != n,
    decreases es.len(),
{
    if es.len() > 0 {
        lemma_find_entry_absent(es.drop_first(), n);
        assert forall|k: int| 0 <= k < es.len() implies es[k].0@ != n by {
            if k > 0 {
                assert(es.drop_first()[k - 1] == es[k]);
            }
        }
    }
}

/// A nonempty prefix relation steps through the first element.
pub proof fn lemma_prefix_step(p: Seq<Seq<char>>, q: Seq<Seq<char>>)
    requires
        p.len() > 0,
    ensures
        p.is_prefix_of(q) <==> (q.len() > 0 && q[0] == p[0] && p.drop_first().is_prefix_of(
            q.drop_first(),
        )),
{
    if p.is_prefix_of(q) {
        assert(p =~= q.subrange(0, p.len() as int));
        assert(q[0] == p[0]);
        assert forall|k: int| 0 <= k < p.drop_first().len() implies p.drop_first()[k]
            == q.drop_first().subrange(0, p.len() - 1)[k] by {
            assert(p.drop_first()[k] == p[k + 1]);
            assert(q.drop_first().subrange(0, p.len() - 1)[k] == q[k + 1]);
        }
        assert(p.drop_first() =~= q.drop_first().subrange(0, p.len() - 1));
    }
    if q.len() > 0 && q[0] == p[0] && p.drop_first().is_prefix_of(q.drop_first()) {
        assert(p.drop_first() =~= q.drop_first().subrange(0, p.drop_first().len() as int));
        assert forall|k: int| 0 <= k < p.len() implies p[k] == q.subrange(0, p.len() as int)[k] by {
            if k > 0 {
                assert(p[k] == p.drop_first()[k - 1]);
                assert(p.drop_first()[k - 1] == q.drop_first().subrange(
                    0,
                    p.drop_first().len() as int,
                )[k - 1]);
                assert(q.drop_first()[k - 1] == q[k]);
            }
        }
        assert(p =~= q.subrange(0, p.len() as int));
    }
}

/// No name is bound among no entries.
pub proof fn lemma_find_entry_empty(n: Seq<char>)
    ensures
        find_entry(Seq::<CommandEntry>::empty(), n) is None,
{
}

proof fn lemma_find_entry_singleton(e: CommandEntry, n: Seq<char>)
    ensures
        find_entry(seq![e], n) == (if e.0@ == n {
            Some(e.1)
        } else {
            None::<CommandGroup>
        }),
{
    assert(seq![e][0] == e);
    assert(seq![e].drop_first() =~= Seq::<CommandEntry>::empty());
    lemma_find_entry_empty(n);
}

/// Appending an entry leaves every present name bound as before and
/// binds the new name only where it was absent.
proof fn lemma_find_entry_push(es: Seq<CommandEntry>, e: CommandEntry, n: Seq<char>)
    ensures
        find_entry(es.push(e), n) == (if find_entry(es, n) is Some {
            find_entry(es, n)
        } else if e.0@ == n {
            Some(e.1)
        } else {
            None::<CommandGroup>
        }),
    decreases es.len(),
{
    if es.len() == 0 {
        assert(es.push(e) =~= seq![e]);
        lemma_find_entry_singleton(e, n);
    } else {
        assert(es.push(e)[0] == es[0]);
        assert(es.push(e).drop_first() =~= es.drop_first().push(e));
        lemma_find_entry_push(es.drop_first(), e, n);
    }
}

/// Replacing the first entry of a name rebinds exactly that name.
proof fn lemma_find_entry_update(es: Seq<CommandEntry>, j: int, e: CommandEntry, n: Seq<char>)
    requires
        0 <= j < es.len(),
        e.0@ == es[j].0@,
        forall|k: int| 0 <= k < j ==> es[k].0@ != es[j].0@,
    ensures
        find_entry(es.update(j, e), n) == (if n == es[j].0@ {
            Some(e.1)
        } else {
            find_entry(es, n)
        }),
    decreases es.len(),
{
    let es2 = es.update(j, e);
    if j == 0 {
        assert(es2[0] == e);
        assert(es2.drop_first() =~= es.drop_first());
    } else {
        assert(es2[0] == es[0]);
        assert(es2.drop_first() =~= es.drop_first().update(j - 1, e));
        assert(es.drop_first()[j - 1] == es[j]);
        assert forall|k: int| 0 <= k < j - 1 implies #[trigger] es.drop_first()[k].0@
            != es.drop_first()[j - 1].0@ by {
            assert(es.drop_first()[k] == es[k + 1]);
        }
        lemma_find_entry_update(es.drop_first(), j - 1, e, n);
    }
}

/// Builds the chain of fresh groups ending in the leaf `cmd`, covering
/// the path elements from `i` on.
fn make_chain(path: &Vec<String>, i: usize, cmd: CommandInstance) -> (n: CommandGroup)
    requires
        i <= path@.len(),
    ensures
        forall|q: Seq<Seq<char>>| #[trigger] node_found(n, q) == (if path.deep_view().skip(
            i as int,
        ).is_prefix_of(q) {
            Some(cmd)
        } else {
            None::<CommandInstance>
        }),
        forall|levels: nat| path@.len() - i <= levels ==> #[trigger] node_wf(n, levels),
    decreases path@.len() - i,
{
    let ghost pv: Seq<Seq<char>> = path.deep_view();
    if i == path.len() {
        let n = CommandGroup::Command(cmd);
        proof {
            assert(forall|levels: nat| #[trigger] node_wf(n, levels));
            assert(pv.skip(i as int) =~= Seq::<Seq<char>>::empty());
            assert forall|q: Seq<Seq<char>>| #[trigger] node_found(n, q) == (if pv.skip(
                i as int,
            ).is_prefix_of(q) {
                Some(cmd)
            } else {
                None::<CommandInstance>
            }) by {
                assert(pv.skip(i as int) =~= q.subrange(0, 0));
            }
        }
        n
    } else {
        let plen = path.len();
        let child = make_chain(path, i + 1, cmd);
        let name = path[i].clone();
        let mut es: Vec<CommandEntry> = Vec::new();
        es.push((name, child));
        let n = CommandGroup::CommandGroup(es);
        proof {
            let entry = (name, child);
            assert(es@ =~= seq![entry]);
            assert forall|levels: nat| plen - i <= levels implies #[trigger] node_wf(n, levels) by {
                assert(levels >= 1);
                assert(node_wf(child, (levels - 1) as nat));
                assert(es@[0].1 == child);
                assert(entries_wf(es@, (levels - 1) as nat));
            }
            assert(pv.skip(i as int).drop_first() =~= pv.skip(i as int + 1));
            assert(pv.skip(i as int)[0] == pv[i as int]);
            assert(pv[i as int] == path@[i as int]@);
            assert(name@ == pv[i as int]);
            assert forall|q: Seq<Seq<char>>| #[trigger] node_found(n, q) == (if pv.skip(
                i as int,
            ).is_prefix_of(q) {
                Some(cmd)
            } else {
                None::<CommandInstance>
            }) by {
                lemma_prefix_step(pv.skip(i as int), q);
                if q.len() == 0 {
                    assert(node_found(n, q) is None);
                } else {
                    lemma_find_entry_singleton(entry, q[0]);
                    if q[0] == name@ {
                        assert(find_entry(es@, q[0]) == Some(child));
                        assert(node_found(n, q) == node_found(child, q.drop_first()));
                    } else {
                        assert(find_entry(es@, q[0]) is None);
                        assert(node_found(n, q) is None);
                    }
                }
            }
        }
        n
    }
}

/// Inserts the leaf `cmd` at the path elements from `i` on, creating
/// intermediate groups as needed.  Afterwards exactly the paths that
/// extend the inserted one lead to `cmd`; every other path leads where
/// it led before.
fn insert_at(es: &mut Vec<CommandEntry>, path: &Vec<String>, i: usize, cmd: CommandInstance)
    requires
        i < path@.len(),
        can_insert(old(es)@, path.deep_view().skip(i as int)),
    ensures
        forall|q: Seq<Seq<char>>| #[trigger] found_at(final(es)@, q) == (if path.deep_view().skip(
            i as int,
        ).is_prefix_of(q) {
            Some(cmd)
        } else {
            found_at(old(es)@, q)
        }),
        find_entry(final(es)@, path.deep_view().skip(i as int)[0]) is Some,
        forall|n: Seq<char>|
            n != path.deep_view().skip(i as int)[0] ==> #[trigger] find_entry(final(es)@, n)
                == find_entry(old(es)@, n),
        forall|levels: nat|
            entries_wf(old(es)@, levels) && path@.len() - i <= levels ==> #[trigger] entries_wf(
                final(es)@,
                levels,
            ),
    decreases path@.len() - i,
{
    let ghost pv: Seq<Seq<char>> = path.deep_view();
    let ghost p: Seq<Seq<char>> = pv.skip(i as int);
    let ghost pre: Seq<CommandEntry> = es@;
    let plen = path.len();
    proof {
        assert(i < plen);
        assert(p[0] == pv[i as int]);
        assert(pv[i as int] == path@[i as int]@);
        assert(p.drop_first() =~= pv.skip(i as int + 1));
    }
    match find_in(es, path[i].as_str()) {
        None => {
            let child = make_chain(path, i + 1, cmd);
            let name = path[i].clone();
            let ghost entry = (name, child);
            es.push((name, child));
            proof {
                assert(es@ == pre.push(entry));
                assert forall|q: Seq<Seq<char>>| #[trigger] found_at(es@, q) == (if p.is_prefix_of(
                    q,
                ) {
                    Some(cmd)
                } else {
                    found_at(pre, q)
                }) by {
                    lemma_prefix_step(p, q);
                    if q.len() == 0 {
                    } else {
                        lemma_find_entry_push(pre, entry, q[0]);
                        if q[0] == p[0] {
                            assert(find_entry(pre, q[0]) is None);
                            assert(find_entry(es@, q[0]) == Some(child));
                            assert(found_at(es@, q) == node_found(child, q.drop_first()));
                            assert(found_at(pre, q) is None);
                        } else {
                            assert(find_entry(es@, q[0]) == find_entry(pre, q[0]));
                        }
                    }
                }
                lemma_find_entry_push(pre, entry, p[0]);
                assert forall|n: Seq<char>| n != p[0] implies #[trigger] find_entry(es@, n)
                    == find_entry(pre, n) by {
                    lemma_find_entry_push(pre, entry, n);
                }
                lemma_find_entry_absent(pre, p[0]);
                assert forall|levels: nat|
                    entries_wf(pre, levels) && plen - i <= levels implies #[trigger] entries_wf(
                    es@,
                    levels,
                ) by {
                    assert(node_wf(child, levels));
                    assert forall|a: int, b: int|
                        #![trigger es@[a], es@[b]]
                        0 <= a < b < es@.len() implies es@[a].0@ != es@[b].0@ by {
                        if b < pre.len() {
                            assert(es@[a] == pre[a]);
                            assert(es@[b] == pre[b]);
                        } else {
                            assert(es@[a] == pre[a]);
                            assert(es@[b] == entry);
                            assert(pre[a].0@ != p[0]);
                        }
                    }
                    assert forall|k: int| 0 <= k < es@.len() implies node_wf(
                        #[trigger] es@[k].1,
                        levels,
                    ) by {
                        if k < pre.len() {
                            assert(es@[k] == pre[k]);
                            assert(node_wf(pre[k].1, levels));
                        } else {
                            assert(es@[k] == entry);
                        }
                    }
                }
            }
        },
        Some(j) => {
            let entry = es.remove(j);
            let (ename, enode) = entry;
            match enode {
                CommandGroup::CommandGroup(mut sub) => {
                    let ghost sub0: Seq<CommandEntry> = sub@;
                    proof {
                        assert(find_entry(pre, p[0]) == Some(pre[j as int].1));
                        assert(pre[j as int].1 == CommandGroup::CommandGroup(sub));
                        assert(p.len() > 1 && can_insert(sub0, p.drop_first()));
                    }
                    insert_at(&mut sub, path, i + 1, cmd);
                    let ghost newnode = CommandGroup::CommandGroup(sub);
                    es.insert(j, (ename, CommandGroup::CommandGroup(sub)));
                    proof {
                        let e2 = (ename, newnode);
                        assert(es@ =~= pre.update(j as int, e2));
                        assert(ename@ == pre[j as int].0@);
                        assert forall|q: Seq<Seq<char>>| #[trigger] found_at(es@, q) == (if p
                            .is_prefix_of(q) {
                            Some(cmd)
                        } else {
                            found_at(pre, q)
                        }) by {
                            lemma_prefix_step(p, q);
                            if q.len() == 0 {
                            } else {
                                lemma_find_entry_update(pre, j as int, e2, q[0]);
                                if q[0] == p[0] {
                                    assert(find_entry(es@, q[0]) == Some(newnode));
                                    assert(found_at(es@, q) == found_at(sub@, q.drop_first()));
                                    assert(found_at(pre, q) == found_at(sub0, q.drop_first()));
                                    assert(found_at(sub@, q.drop_first()) == (if pv.skip(
                                        i as int + 1,
                                    ).is_prefix_of(q.drop_first()) {
                                        Some(cmd)
                                    } else {
                                        found_at(sub0, q.drop_first())
                                    }));
                                } else {
                                    assert(find_entry(es@, q[0]) == find_entry(pre, q[0]));
                                }
                            }
                        }
                        lemma_find_entry_update(pre, j as int, e2, p[0]);
                        assert forall|n: Seq<char>| n != p[0] implies #[trigger] find_entry(es@, n)
                            == find_entry(pre, n) by {
                            lemma_find_entry_update(pre, j as int, e2, n);
                        }
                        assert forall|levels: nat|
                            entries_wf(pre, levels) && plen - i <= levels
                            implies #[trigger] entries_wf(es@, levels) by {
                            assert(node_wf(pre[j as int].1, levels));
                            assert(levels >= 1);
                            assert(entries_wf(sub0, (levels - 1) as nat));
                            assert(entries_wf(sub@, (levels - 1) as nat));
                            assert(node_wf(newnode, levels));
                            assert forall|a: int, b: int|
                                #![trigger es@[a], es@[b]]
                                0 <= a < b < es@.len() implies es@[a].0@ != es@[b].0@ by {
                                assert(es@[a].0@ == pre[a].0@);
                                assert(es@[b].0@ == pre[b].0@);
                                assert(pre[a].0@ != pre[b].0@);
                            }
                            assert forall|k: int| 0 <= k < es@.len() implies node_wf(
                                #[trigger] es@[k].1,
                                levels,
                            ) by {
                                if k != j {
                                    assert(es@[k] == pre[k]);
                                    assert(node_wf(pre[k].1, levels));
                                } else {
                                    assert(es@[k].1 == newnode);
                                }
                            }
                        }
                    }
                },
                CommandGroup::Command(d) => {
                    proof {
                        assert(find_entry(pre, p[0]) == Some(pre[j as int].1));
                        assert(false);
                    }
                    vstd::pervasive::unreached()
                },
            }
        },
    }
}

/// Whether the leaf can be inserted at the path elements from `i` on.
fn check_insert(es: &Vec<CommandEntry>, path: &Vec<String>, i: usize) -> (r: bool)
    requires
        i < path@.len(),
    ensures
        r == can_insert(es@, path.deep_view().skip(i as int)),
    decreases path@.len() - i,
{
    let ghost pv: Seq<Seq<char>> = path.deep_view();
    let plen = path.len();
    proof {
        assert(i < plen);
        assert(pv.skip(i as int)[0] == pv[i as int]);
        assert(pv[i as int] == path@[i as int]@);
        assert(pv.skip(i as int).drop_first() =~= pv.skip(i as int + 1));
    }
    match find_in(es, path[i].as_str()) {
        None => true,
        Some(j) => match &es[j].1 {
            CommandGroup::Command(_) => false,
            CommandGroup::CommandGroup(sub) => {
                if i + 1 < plen {
                    check_insert(sub, path, i + 1)
                } else {
                    false
                }
            },
        },
    }
}

/// What the dispatcher decided for one inbound event.  The silent
/// outcomes carry no reply and run no handler; unknown commands and
/// partial subcommand paths are deliberately not user-visible errors.
pub enum DispatchDecision {
    /// No root command matches: stay silent.
    NoMatch,
    /// The path matched a prefix but ended inside a group: stay
    /// silent; worth logging, never worth a reply.
    IncompletePath,
    /// Run the identified handler with the context built for the
    /// event.
    Invoke { handler: HandlerId, ctx: CommandContext },
}

/// Outcome of resolving a path against the registry.
pub enum ResolveOutcome<'a> {
    /// The path matched a leaf.
    Found(&'a CommandInstance),
    /// No root command matches the first path element.
    NotFound,
    /// The path matched a prefix but ended at a group.
    Incomplete(&'a Vec<CommandEntry>),
}

/// First index whose entry is named `name`, scanning from the front.
fn find_in<'a>(es: &'a Vec<CommandEntry>, name: &str) -> (r: Option<usize>)
    ensures
        match r {
            Some(j) => j < es@.len() && es@[j as int].0@ == name@ && find_entry(es@, name@)
                == Some(es@[j as int].1) && (forall|k: int| 0 <= k < j ==> es@[k].0@ != name@),
            None => find_entry(es@, name@) is None,
        },
{
    let mut i: usize = 0;
    while i < es.len()
        invariant
            i <= es@.len(),
            forall|k: int| 0 <= k < i ==> es@[k].0@ != name@,
        decreases es@.len() - i,
    {
        if str_eq(es[i].0.as_str(), name) {
            proof {
                lemma_find_entry_at(es@, name@, i as int);
            }
            return Some(i);
        }
        i = i + 1;
    }
    proof {
        lemma_find_entry_none(es@, name@);
    }
    None
}

/// If the first `j` entries all miss and entry `j` matches, the search
/// lands on entry `j`.
proof fn lemma_find_entry_at(es: Seq<CommandEntry>, name: Seq<char>, j: int)
    requires
        0 <= j < es.len(),
        es[j].0@ == name,
        forall|k: int| 0 <= k < j ==> es[k].0@ != name,
    ensures
        find_entry(es, name) == Some(es[j].1),
    decreases es.len(),
{
    if j > 0 {
        assert forall|k: int| 0 <= k < j - 1 implies es.drop_first()[k].0@ != name by {
            assert(es.drop_first()[k] == es[k + 1]);
        }
        lemma_find_entry_at(es.drop_first(), name, j - 1);
    }
}

/// If every entry misses, the search finds nothing.
proof fn lemma_find_entry_none(es: Seq<CommandEntry>, name: Seq<char>)
    requires
        forall|k: int| 0 <= k < es.len() ==> es[k].0@ != name,
    ensures
        find_entry(es, name) is None,
    decreases es.len(),
{
    if es.len() > 0 {
        assert forall|k: int| 0 <= k < es.drop_first().len() implies es.drop_first()[k].0@
            != name by {
            assert(es.drop_first()[k] == es[k + 1]);
        }
        lemma_find_entry_none(es.drop_first(), name);
    }
}

impl CommandFramework {
    /// The registry's entries, for specification purposes.
    pub closed spec fn entries(self) -> Seq<CommandEntry> {
        self.commands@
    }

    /// The registry invariant: within every scope the names are
    /// unique, and routing nests at most three levels deep.  The empty
    /// registry establishes it and `register` preserves it.
    pub open spec fn wf(self) -> bool {
        entries_wf(self.entries(), 3)
    }

    /// An empty registry.
    pub fn empty() -> (r: CommandFramework)
        ensures
            r.entries() =~= Seq::<CommandEntry>::empty(),
            r.wf(),
    {
        CommandFramework { commands: Vec::new() }
    }

    /// Inserts the leaf `cmd` at `path`, creating intermediate groups
    /// as needed.  The path must name one to three routing levels;
    /// registration fails with `DuplicateRegistration` when a leaf
    /// already stands at or along the path, or anything occupies the
    /// exact final spot.  A failed registration leaves the registry
    /// unchanged.  After a successful one, exactly the paths extending
    /// the registered one lead to `cmd`, and every other path leads
    /// where it led before.
    pub fn register(&mut self, path: &Vec<String>, cmd: CommandInstance) -> (r: Result<
        (),
        RegisterError,
    >)
        ensures
            r is Ok <==> (1 <= path@.len() <= 3 && can_insert(
                old(self).entries(),
                path.deep_view(),
            )),
            r == Err::<(), RegisterError>(RegisterError::InvalidPath) <==> !(1 <= path@.len()
                <= 3),
            r == Err::<(), RegisterError>(RegisterError::DuplicateRegistration) <==> (1
                <= path@.len() <= 3 && !can_insert(old(self).entries(), path.deep_view())),
            r is Err ==> *final(self) == *old(self),
            r is Ok ==> found_at(final(self).entries(), path.deep_view()) == Some(cmd),
            r is Ok ==> (forall|q: Seq<Seq<char>>| #[trigger]
                found_at(final(self).entries(), q) == (if path.deep_view().is_prefix_of(q) {
                    Some(cmd)
                } else {
                    found_at(old(self).entries(), q)
                })),
            r is Ok ==> find_entry(final(self).entries(), path.deep_view()[0]) is Some,
            r is Ok ==> (forall|n: Seq<char>|
                n != path.deep_view()[0] ==> #[trigger] find_entry(final(self).entries(), n)
                    == find_entry(old(self).entries(), n)),
            r is Ok ==> (forall|levels: nat|
                entries_wf(old(self).entries(), levels) && path@.len() <= levels
                    ==> #[trigger] entries_wf(final(self).entries(), levels)),
            r is Ok && old(self).wf() ==> final(self).wf(),
    {
        if path.len() < 1 || path.len() > 3 {
            return Err(RegisterError::InvalidPath);
        }
        proof {
            assert(path.deep_view().skip(0) =~= path.deep_view());
        }
        if !check_insert(&self.commands, path, 0) {
            return Err(RegisterError::DuplicateRegistration);
        }
        insert_at(&mut self.commands, path, 0, cmd);
        proof {
            let pv = path.deep_view();
            assert(pv =~= pv.subrange(0, pv.len() as int));
            assert(pv.is_prefix_of(pv));
            assert(found_at(self.entries(), pv) == Some(cmd));
        }
        Ok(())
    }

    /// Registers a root-level leaf under the command's own name.
    pub fn add_command(&mut self, cmd: CommandInstance) -> (r: Result<(), RegisterError>)
        ensures
            r is Ok <==> find_entry(old(self).entries(), cmd.name@) is None,
            r is Err ==> (*final(self) == *old(self) && r == Err::<(), RegisterError>(
                RegisterError::DuplicateRegistration,
            )),
            r is Ok ==> (forall|q: Seq<Seq<char>>| #[trigger]
                found_at(final(self).entries(), q) == (if seq![cmd.name@].is_prefix_of(q) {
                    Some(cmd)
                } else {
                    found_at(old(self).entries(), q)
                })),
            r is Ok ==> find_entry(final(self).entries(), cmd.name@) is Some,
            r is Ok ==> (forall|n: Seq<char>|
                n != cmd.name@ ==> #[trigger] find_entry(final(self).entries(), n) == find_entry(
                    old(self).entries(),
                    n,
                )),
            r is Ok && old(self).wf() ==> final(self).wf(),
    {
        let mut path: Vec<String> = Vec::new();
        path.push(cmd.name.clone());
        proof {
            assert(path.deep_view() =~= seq![cmd.name@]);
            assert(seq![cmd.name@].drop_first() =~= Seq::<Seq<char>>::empty());
        }
        let r = self.register(&path, cmd);
        proof {
            if find_entry(old(self).entries(), cmd.name@) is None {
                assert(can_insert(old(self).entries(), path.deep_view()));
            } else {
                assert(!can_insert(old(self).entries(), path.deep_view()));
            }
        }
        r
    }


    /// Builds the bot's text-command registry: the `hi`, `ping`, `uwu`
    /// and `guild_info` root commands, each a leaf.  Registration of
    /// this fixed set always succeeds, every one of the four names
    /// resolves to its descriptor, and nothing else is registered.
    pub fn create() -> (r: Result<CommandFramework, RegisterError>)
        ensures
            r is Ok,
            r matches Ok(f) ==> (found_at(f.entries(), seq!["hi"@]) matches Some(d) && (d.name@
                == "hi"@ && d.description@ == "will respond with hi"@ && d.handler
                == HANDLER_HI_ECHO)),
            r matches Ok(f) ==> (found_at(f.entries(), seq!["ping"@]) matches Some(d) && (d.name@
                == "ping"@ && d.description@ == "just 4 fun"@ && d.handler == HANDLER_PING)),
            r matches Ok(f) ==> (found_at(f.entries(), seq!["uwu"@]) matches Some(d) && (d.name@
                == "uwu"@ && d.description@ == "uwuifies strings xD"@ && d.handler
                == HANDLER_UWU)),
            r matches Ok(f) ==> (found_at(f.entries(), seq!["guild_info"@]) matches Some(d) && (
            d.name@ == "guild_info"@ && d.description@ == "get info about the guild"@ && d.handler
                == HANDLER_GUILD_INFO)),
            r matches Ok(f) ==> (forall|q: Seq<Seq<char>>|
                #[trigger] found_at(f.entries(), q) is Some ==> (q.len() >= 1 && (q[0] == "hi"@
                    || q[0] == "ping"@ || q[0] == "uwu"@ || q[0] == "guild_info"@))),
            r matches Ok(f) ==> f.wf(),
    {
        proof {
            reveal_strlit("hi");
            reveal_strlit("ping");
            reveal_strlit("uwu");
            reveal_strlit("guild_info");
        }
        let mut f = CommandFramework::empty();
        let ghost t0 = f.entries();
        let cmd_hi = CommandInstance {
            name: String::from_str("hi"),
            description: String::from_str("will respond with hi"),
            handler: HANDLER_HI_ECHO,
        };
        proof {
            lemma_find_entry_empty("hi"@);
        }
        let r1 = f.add_command(cmd_hi);
        let ghost t1 = f.entries();
        proof {
            assert(r1 is Ok);
        }
        r1?;
        let cmd_ping = CommandInstance {
            name: String::from_str("ping"),
            description: String::from_str("just 4 fun"),
            handler: HANDLER_PING,
        };
        proof {
            reveal_strlit("hi");
            reveal_strlit("ping");
            assert("ping"@.len() == 4);
            assert("hi"@.len() == 2);
            assert("ping"@ != "hi"@);
            lemma_find_entry_empty("ping"@);
            assert(find_entry(t1, "ping"@) is None);
        }
        let r2 = f.add_command(cmd_ping);
        let ghost t2 = f.entries();
        proof {
            assert(r2 is Ok);
        }
        r2?;
        let cmd_uwu = CommandInstance {
            name: String::from_str("uwu"),
            description: String::from_str("uwuifies strings xD"),
            handler: HANDLER_UWU,
        };
        proof {
            reveal_strlit("hi");
            reveal_strlit("ping");
            reveal_strlit("uwu");
            assert("uwu"@.len() == 3);
            assert("hi"@.len() == 2);
            assert("ping"@.len() == 4);
            assert("uwu"@ != "hi"@ && "uwu"@ != "ping"@);
            lemma_find_entry_empty("uwu"@);
            assert(find_entry(t2, "uwu"@) is None);
        }
        let r3 = f.add_command(cmd_uwu);
        let ghost t3 = f.entries();
        proof {
            assert(r3 is Ok);
        }
        r3?;
        let cmd_gi = CommandInstance {
            name: String::from_str("guild_info"),
            description: String::from_str("get info about the guild"),
            handler: HANDLER_GUILD_INFO,
        };
        proof {
            reveal_strlit("hi");
            reveal_strlit("ping");
            reveal_strlit("uwu");
            reveal_strlit("guild_info");
            assert("guild_info"@.len() == 10);
            assert("hi"@.len() == 2);
            assert("ping"@.len() == 4);
            assert("uwu"@.len() == 3);
            assert("guild_info"@ != "hi"@ && "guild_info"@ != "ping"@ && "guild_info"@ != "uwu"@);
            lemma_find_entry_empty("guild_info"@);
            assert(find_entry(t3, "guild_info"@) is None);
        }
        let r4 = f.add_command(cmd_gi);
        let ghost t4 = f.entries();
        proof {
            assert(r4 is Ok);
        }
        r4?;
        proof {
            lemma_four_roots(
                t0,
                t1,
                t2,
                t3,
                t4,
                seq!["hi"@],
                seq!["ping"@],
                seq!["uwu"@],
                seq!["guild_info"@],
                cmd_hi,
                cmd_ping,
                cmd_uwu,
                cmd_gi,
            );
            assert(seq!["hi"@].is_prefix_of(seq!["hi"@])) by {
                assert(seq!["hi"@].subrange(0, 1) =~= seq!["hi"@]);
            }
            assert(seq!["ping"@].is_prefix_of(seq!["ping"@])) by {
                assert(seq!["ping"@].subrange(0, 1) =~= seq!["ping"@]);
            }
            assert(seq!["uwu"@].is_prefix_of(seq!["uwu"@])) by {
                assert(seq!["uwu"@].subrange(0, 1) =~= seq!["uwu"@]);
            }
            assert(seq!["guild_info"@].is_prefix_of(seq!["guild_info"@])) by {
                assert(seq!["guild_info"@].subrange(0, 1) =~= seq!["guild_info"@]);
            }
            assert(found_at(t4, seq!["hi"@]) is Some);
            assert(found_at(t4, seq!["ping"@]) is Some);
            assert(found_at(t4, seq!["uwu"@]) is Some);
            assert(found_at(t4, seq!["guild_info"@]) is Some);
        }
        Ok(f)
    }

    /// Walks `path` through the registry.  A leaf ends the walk as soon
    /// as it is reached; a group requires the next element to name one
    /// of its children; a miss at the root is `NotFound`, any deeper
    /// stop is `Incomplete`.
    pub fn resolve<'a>(&'a self, path: &Vec<String>) -> (r: ResolveOutcome<'a>)
        ensures
            match r {
                ResolveOutcome::Found(d) => spec_resolve(self.entries(), path.deep_view(), true)
                    == SpecResolved::Found(*d),
                ResolveOutcome::NotFound => spec_resolve(self.entries(), path.deep_view(), true)
                    is NotFound,
                ResolveOutcome::Incomplete(g) => spec_resolve(self.entries(), path.deep_view(), true)
                    == SpecResolved::Incomplete(g@),
            },
    {
        let ghost pv: Seq<Seq<char>> = path.deep_view();
        let mut cur: &'a Vec<CommandEntry> = &self.commands;
        let mut i: usize = 0;
        proof {
            assert(pv.skip(0) =~= pv);
        }
        loop
            invariant
                i <= pv.len(),
                pv == path.deep_view(),
                pv.len() == path@.len(),
                spec_resolve(self.entries(), pv, true) == spec_resolve(
                    cur@,
                    pv.skip(i as int),
                    i == 0,
                ),
            decreases pv.len() - i,
        {
            if i == path.len() {
                proof {
                    assert(pv.skip(i as int) =~= Seq::<Seq<char>>::empty());
                }
                return ResolveOutcome::Incomplete(cur);
            }
            proof {
                assert(pv.skip(i as int).len() > 0);
                assert(pv.skip(i as int)[0] == pv[i as int]);
                assert(pv[i as int] == path@[i as int]@);
            }
            match find_in(cur, path[i].as_str()) {
                None => {
                    if i == 0 {
                        return ResolveOutcome::NotFound;
                    } else {
                        return ResolveOutcome::Incomplete(cur);
                    }
                },
                Some(j) => {
                    match &cur[j].1 {
                        CommandGroup::Command(d) => {
                            return ResolveOutcome::Found(d);
                        },
                        CommandGroup::CommandGroup(sub) => {
                            proof {
                                assert(pv.skip(i as int).drop_first() =~= pv.skip(i as int + 1));
                            }
                            cur = sub;
                            i = i + 1;
                        },
                    }
                },
            }
        }
    }

    /// Dispatches a prefixed text message: strips the prefix, takes the
    /// first whitespace-delimited token as the root command name, and
    /// resolves it.  Subcommands are a structured-interaction concept,
    /// so no further path tokens are taken from text; everything after
    /// the token is preserved verbatim as the argument remainder.  The
    /// caller must already have checked that the content starts with
    /// the prefix (and that the author is no excluded bot).
    pub fn parse_command(&self, prefix: &str, content: &str, channel_id: u64) -> (d:
        DispatchDecision)
        requires
            crate::strutil::spec_starts_with(content@, prefix@),
        ensures
            ({
                let rest = content@.skip(prefix@.len() as int);
                let tok = rest.take(token_len(rest));
                let remainder = rest.skip(token_len(rest));
                match d {
                    DispatchDecision::NoMatch => spec_resolve(self.entries(), seq![tok], true)
                        is NotFound,
                    DispatchDecision::IncompletePath => spec_resolve(
                        self.entries(),
                        seq![tok],
                        true,
                    ) is Incomplete,
                    DispatchDecision::Invoke { handler, ctx } => ({
                        &&& (found_at(self.entries(), seq![tok]) matches Some(cd) && cd.handler
                            == handler)
                        &&& ctx.wf()
                        &&& ctx.command_type is TEXT
                        &&& (ctx.msg matches Some(m) && (m.content@ == content@ && m.channel_id
                            == channel_id))
                        &&& (ctx.stripped matches Some(st) && st@ == remainder)
                    }),
                }
            }),
    {
        let plen = prefix.unicode_len();
        let clen = content.unicode_len();
        let message = content.substring_char(plen, clen);
        let ghost rest = content@.skip(plen as int);
        proof {
            assert(message@ =~= rest);
        }
        let mlen = message.unicode_len();
        let tok_end = find_token_end(message);
        proof {
            lemma_token_len(message@);
        }
        let token = message.substring_char(0, tok_end);
        let remainder = message.substring_char(tok_end, mlen);
        proof {
            assert(token@ =~= rest.take(token_len(rest)));
            assert(remainder@ =~= rest.skip(token_len(rest)));
        }
        let mut path: Vec<String> = Vec::new();
        path.push(String::from_str(token));
        proof {
            assert(path.deep_view() =~= seq![token@]);
        }
        match self.resolve(&path) {
            ResolveOutcome::NotFound => DispatchDecision::NoMatch,
            ResolveOutcome::Incomplete(_) => DispatchDecision::IncompletePath,
            ResolveOutcome::Found(desc) => {
                let handler = desc.handler;
                proof {
                    lemma_resolve_found(self.entries(), seq![token@], true);
                }
                let ctx = CommandContext::for_text(
                    MessagePayload { content: String::from_str(content), channel_id },
                    String::from_str(remainder),
                );
                DispatchDecision::Invoke { handler, ctx }
            },
        }
    }
}


/// What the event loop does with one inbound text message.
#[derive(PartialEq, Eq, Structural, Clone, Copy, Debug)]
pub enum MessageAction {
    /// Drop the message: a bot wrote it, or it is neither prefixed nor
    /// a mention of this bot.
    Ignore,
    /// Hand the message to the dispatcher.
    Dispatch,
    /// Answer with the prefix hint: the message is exactly a mention
    /// of this bot.
    PrefixInfo,
}

/// The mention string of a user id.
pub open spec fn mention_of(me: Seq<char>) -> Seq<char> {
    "<@"@ + me + ">"@
}

/// Classifies one inbound text message, the way the event loop routes
/// them: messages by bots outside the allow list are dropped; prefixed
/// messages go to the dispatcher; a bare mention of this bot earns the
/// prefix hint; everything else is dropped.
pub fn message_action(
    content: &str,
    author_is_bot: bool,
    author_id: &str,
    good_bots: &Vec<String>,
    prefix: &str,
    me: &str,
) -> (a: MessageAction)
    ensures
        a == (if author_is_bot && !good_bots.deep_view().contains(author_id@) {
            MessageAction::Ignore
        } else if crate::strutil::spec_starts_with(content@, prefix@) {
            MessageAction::Dispatch
        } else if content@ == mention_of(me@) {
            MessageAction::PrefixInfo
        } else {
            MessageAction::Ignore
        }),
{
    if author_is_bot && !crate::strutil::contains_str(good_bots, author_id) {
        return MessageAction::Ignore;
    }
    if crate::strutil::starts_with(content, prefix) {
        return MessageAction::Dispatch;
    }
    let mut mention = String::from_str("<@");
    mention.append(me);
    mention.append(">");
    proof {
        assert(mention@ =~= mention_of(me@));
    }
    if str_eq(content, mention.as_str()) {
        return MessageAction::PrefixInfo;
    }
    MessageAction::Ignore
}

/// The greeting the `hi` command answers with: the user's name and the
/// pretty-printed record shown about them.
pub fn greeting_text(name: &str, info: &str) -> (r: String)
    ensures
        r@ == "hello, "@ + name@ + ". Here's some information about you:\n```"@ + info@ + "```"@,
{
    let mut r = String::from_str("hello, ");
    r.append(name);
    r.append(". Here's some information about you:\n```");
    r.append(info);
    r.append("```");
    proof {
        assert(r@ =~= "hello, "@ + name@ + ". Here's some information about you:\n```"@ + info@
            + "```"@);
    }
    r
}

/// After four successive registrations into an empty registry, every
/// resolvable path starts with one of the four registered root names.
pub proof fn lemma_four_roots(
    t0: Seq<CommandEntry>,
    t1: Seq<CommandEntry>,
    t2: Seq<CommandEntry>,
    t3: Seq<CommandEntry>,
    t4: Seq<CommandEntry>,
    p1: Seq<Seq<char>>,
    p2: Seq<Seq<char>>,
    p3: Seq<Seq<char>>,
    p4: Seq<Seq<char>>,
    c1: CommandInstance,
    c2: CommandInstance,
    c3: CommandInstance,
    c4: CommandInstance,
)
    requires
        t0 =~= Seq::<CommandEntry>::empty(),
        p1.len() > 0,
        p2.len() > 0,
        p3.len() > 0,
        p4.len() > 0,
        forall|q: Seq<Seq<char>>| #[trigger] found_at(t1, q) == (if p1.is_prefix_of(q) {
            Some(c1)
        } else {
            found_at(t0, q)
        }),
        forall|q: Seq<Seq<char>>| #[trigger] found_at(t2, q) == (if p2.is_prefix_of(q) {
            Some(c2)
        } else {
            found_at(t1, q)
        }),
        forall|q: Seq<Seq<char>>| #[trigger] found_at(t3, q) == (if p3.is_prefix_of(q) {
            Some(c3)
        } else {
            found_at(t2, q)
        }),
        forall|q: Seq<Seq<char>>| #[trigger] found_at(t4, q) == (if p4.is_prefix_of(q) {
            Some(c4)
        } else {
            found_at(t3, q)
        }),
    ensures
        forall|q: Seq<Seq<char>>|
            #[trigger] found_at(t4, q) is Some ==> (q.len() >= 1 && (q[0] == p1[0] || q[0] == p2[0]
                || q[0] == p3[0] || q[0] == p4[0])),
{
    assert forall|q: Seq<Seq<char>>| #[trigger] found_at(t4, q) is Some implies (q.len() >= 1 && (
    q[0] == p1[0] || q[0] == p2[0] || q[0] == p3[0] || q[0] == p4[0])) by {
        if q.len() == 0 {
            if p4.is_prefix_of(q) {
                assert(p4.len() <= 0);
            }
            if p3.is_prefix_of(q) {
                assert(p3.len() <= 0);
            }
            if p2.is_prefix_of(q) {
                assert(p2.len() <= 0);
            }
            if p1.is_prefix_of(q) {
                assert(p1.len() <= 0);
            }
            assert(found_at(t4, q) is None);
        } else {
            if !p4.is_prefix_of(q) {
                assert(found_at(t4, q) == found_at(t3, q));
                if !p3.is_prefix_of(q) {
                    assert(found_at(t3, q) == found_at(t2, q));
                    if !p2.is_prefix_of(q) {
                        assert(found_at(t2, q) == found_at(t1, q));
                        if !p1.is_prefix_of(q) {
                            assert(found_at(t1, q) == found_at(t0, q));
                            lemma_find_entry_empty(q[0]);
                            assert(found_at(t0, q) is None);
                        } else {
                            lemma_prefix_step(p1, q);
                        }
                    } else {
                        lemma_prefix_step(p2, q);
                    }
                } else {
                    lemma_prefix_step(p3, q);
                }
            } else {
                lemma_prefix_step(p4, q);
            }
        }
    }
}

/// A path at which a descriptor is registered resolves to exactly that
/// descriptor: looking the path up never yields another leaf, a miss or
/// a partial match.
pub proof fn lemma_registered_resolves(
    es: Seq<CommandEntry>,
    p: Seq<Seq<char>>,
    d: CommandInstance,
)
    requires
        found_at(es, p) == Some(d),
    ensures
        spec_resolve(es, p, true) == SpecResolved::Found(d),
{
    lemma_resolve_found(es, p, true);
}

/// A path that already leads to a leaf can not be inserted again: a
/// second registration of it is refused, and the registry is unchanged
/// afterwards (see `register`).
pub proof fn lemma_registered_blocks_insert(es: Seq<CommandEntry>, p: Seq<Seq<char>>)
    requires
        found_at(es, p) is Some,
    ensures
        !can_insert(es, p),
    decreases p.len(),
{
    match find_entry(es, p[0]) {
        None => {},
        Some(n) => match n {
            CommandGroup::Command(_) => {},
            CommandGroup::CommandGroup(sub) => {
                if p.len() > 1 {
                    lemma_registered_blocks_insert(sub@, p.drop_first());
                }
            },
        },
    }
}

/// A path that follows a registered prefix into a child the group does
/// not have never resolves to a leaf, whatever else follows: the walk
/// ends in `NotFound` or `Incomplete`.
pub proof fn lemma_missing_child_never_found(
    es: Seq<CommandEntry>,
    q: Seq<Seq<char>>,
    c: Seq<char>,
    rest: Seq<Seq<char>>,
    gs: Seq<CommandEntry>,
    at_root: bool,
)
    requires
        spec_resolve(es, q, at_root) == SpecResolved::Incomplete(gs),
        find_entry(gs, c) is None,
    ensures
        !(spec_resolve(es, q + seq![c] + rest, at_root) matches SpecResolved::Found(_)),
    decreases q.len(),
{
    let full = q + seq![c] + rest;
    if q.len() == 0 {
        assert(gs == es);
        assert(full[0] == c);
    } else {
        assert(full[0] == q[0]);
        match find_entry(es, q[0]) {
            None => {},
            Some(n) => match n {
                CommandGroup::Command(_) => {},
                CommandGroup::CommandGroup(sub) => {
                    assert(full.drop_first() =~= q.drop_first() + seq![c] + rest);
                    lemma_missing_child_never_found(sub@, q.drop_first(), c, rest, gs, false);
                },
            },
        }
    }
}

} // verus!
