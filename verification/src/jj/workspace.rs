//! The search for the root of a Jujutsu workspace.

use crate::host::{Host, Reply, Request};
use crate::path::{
    components, join, law_components_of_names, lemma_join, lemma_parent, parent, FilePath,
};
use vstd::prelude::*;
use vstd::utf8::encode_utf8;

verus! {

/// The search for the root of a workspace.
#[derive(Debug)]
pub enum WorkspaceSearch<P> {
    /// Whether `dir` holds a directory `.jj` is to be told.
    Probe { dir: P },
    Found { root: P },
    NotFound,
}

impl View for WorkspaceSearch<FilePath> {
    type V = WorkspaceSearch<Seq<u8>>;

    open spec fn view(&self) -> WorkspaceSearch<Seq<u8>> {
        match *self {
            WorkspaceSearch::Probe { dir } => WorkspaceSearch::Probe { dir: dir@ },
            WorkspaceSearch::Found { root } => WorkspaceSearch::Found { root: root@ },
            WorkspaceSearch::NotFound => WorkspaceSearch::NotFound,
        }
    }
}

/// The directory of Jujutsu in a workspace.
pub open spec fn jj_dir(workspace_root: Seq<u8>) -> Seq<u8> {
    join(workspace_root, encode_utf8(".jj"@))
}

impl WorkspaceSearch<Seq<u8>> {
    /// What is to be told next.
    pub open spec fn asks(self) -> Option<Request<Seq<u8>>> {
        match self {
            WorkspaceSearch::Probe { dir } => Some(Request::IsDir { path: jj_dir(dir) }),
            _ => None,
        }
    }

    /// The search goes on with the parent until a directory has `.jj` or there is no parent. An
    /// answer to another question changes nothing.
    pub open spec fn told(self, reply: Reply<Seq<u8>, Seq<char>>) -> WorkspaceSearch<Seq<u8>> {
        match (self, reply) {
            (WorkspaceSearch::Probe { dir }, Reply::Flag(true)) => WorkspaceSearch::Found {
                root: dir,
            },
            (WorkspaceSearch::Probe { dir }, Reply::Flag(false)) => match parent(dir) {
                Some(up) => WorkspaceSearch::Probe { dir: up },
                None => WorkspaceSearch::NotFound,
            },
            _ => self,
        }
    }
}

/// Walks up from `start` looking for a directory that contains `.jj/`.
pub fn find_workspace_root(start: &FilePath) -> (search: WorkspaceSearch<FilePath>)
    ensures
        search@ == (WorkspaceSearch::Probe { dir: start@ }),
        search matches WorkspaceSearch::Probe { dir } && dir@ == start@,
{
    WorkspaceSearch::Probe { dir: start.clone() }
}

impl WorkspaceSearch<FilePath> {
    /// What is to be told next; `None` if the search is over.
    pub fn request(&self) -> (request: Option<Request<FilePath>>)
        ensures
            match request {
                Some(r) => self@.asks() == Some(r@),
                None => self@.asks() is None,
            },
            match *self {
                WorkspaceSearch::Probe { dir } => request matches Some(Request::IsDir { path })
                    && path@ == join(dir@, encode_utf8(".jj"@)),
                _ => request is None,
            },
    {
        match self {
            WorkspaceSearch::Probe { dir } => Some(Request::IsDir { path: dir.join_text(".jj") }),
            _ => None,
        }
    }

    /// Goes on with an answer.
    pub fn step(self, reply: Reply<FilePath, String>) -> (next: WorkspaceSearch<FilePath>)
        ensures
            next@ == self@.told(reply@),
            self matches WorkspaceSearch::Probe { dir } ==> match reply {
                Reply::Flag(true) => next matches WorkspaceSearch::Found { root } && root@ == dir@,
                Reply::Flag(false) => match parent(dir@) {
                    Some(up) => next matches WorkspaceSearch::Probe { dir: tried } && tried@ == up,
                    None => next is NotFound,
                },
                _ => next matches WorkspaceSearch::Probe { dir: tried } && tried@ == dir@,
            },
    {
        match (self, reply) {
            (WorkspaceSearch::Probe { dir }, Reply::Flag(true)) => WorkspaceSearch::Found {
                root: dir,
            },
            (WorkspaceSearch::Probe { dir }, Reply::Flag(false)) => {
                let mut up = dir;
                if up.pop() {
                    WorkspaceSearch::Probe { dir: up }
                } else {
                    WorkspaceSearch::NotFound
                }
            },
            (search, _) => search,
        }
    }
}

// ---------------------------------------------------------------------------------------------
// Laws.

/// Where the search stands after at most `steps` answers of `host`.
pub open spec fn run_search(
    host: Host,
    search: WorkspaceSearch<Seq<u8>>,
    steps: nat,
) -> WorkspaceSearch<Seq<u8>>
    decreases steps,
{
    match search.asks() {
        Some(request) if steps > 0 => run_search(
            host,
            search.told(host.answer(request)),
            (steps - 1) as nat,
        ),
        _ => search,
    }
}

/// Whether `dir` holds a directory `.jj`.
pub open spec fn has_jj(host: Host, dir: Seq<u8>) -> bool {
    (host.is_dir)(jj_dir(dir))
}

/// The directory that is reached from `start` by going up `i` times.
pub open spec fn ancestor(start: Seq<u8>, i: nat) -> Option<Seq<u8>>
    decreases i,
{
    if i == 0 {
        Some(start)
    } else {
        match ancestor(start, (i - 1) as nat) {
            Some(dir) => parent(dir),
            None => None,
        }
    }
}

/// Whether `dir` is the first directory on the way up from `start` that holds `.jj`, reached by
/// going up `i` times.
pub open spec fn is_nearest(host: Host, start: Seq<u8>, i: nat, dir: Seq<u8>) -> bool {
    &&& ancestor(start, i) == Some(dir)
    &&& has_jj(host, dir)
    &&& forall|j: nat| j < i ==> !has_jj(host, (#[trigger] ancestor(start, j))->0)
}

/// Whether `dir` is the nearest of `start` and the directories above it that holds `.jj`.
pub open spec fn is_workspace_of(host: Host, start: Seq<u8>, dir: Seq<u8>) -> bool {
    exists|i: nat| is_nearest(host, start, i, dir)
}

/// Whether neither `start` nor a directory above it holds `.jj`.
pub open spec fn none_above(host: Host, start: Seq<u8>) -> bool {
    forall|i: nat| (#[trigger] ancestor(start, i)) is Some ==> !has_jj(host, ancestor(start, i)->0)
}

/// The first directory on the way up from `start` that holds `.jj`.
pub open spec fn nearest_workspace(host: Host, start: Seq<u8>) -> Option<Seq<u8>>
    decreases start.len(),
{
    if has_jj(host, start) {
        Some(start)
    } else {
        match parent(start) {
            Some(up) => {
                proof {
                    lemma_parent(start);
                }
                nearest_workspace(host, up)
            },
            None => None,
        }
    }
}

/// The search ends after at most one answer more than `start` has bytes, with the first directory
/// on the way up that holds `.jj`.
pub proof fn law_search_ends(host: Host, start: Seq<u8>, steps: nat)
    requires
        steps > start.len(),
    ensures
        run_search(host, WorkspaceSearch::Probe { dir: start }, steps) == (match nearest_workspace(
            host,
            start,
        ) {
            Some(root) => WorkspaceSearch::Found { root },
            None => WorkspaceSearch::NotFound,
        }),
    decreases start.len(),
{
    let first = WorkspaceSearch::Probe { dir: start };
    let next = first.told(host.answer(first.asks()->0));
    let left = (steps - 1) as nat;
    assert(run_search(host, first, steps) == run_search(host, next, left));
    lemma_parent(start);
    if !has_jj(host, start) && parent(start) is Some {
        law_search_ends(host, parent(start)->0, left);
    } else {
        assert(run_search(host, next, left) == next);
    }
}

/// What is found is the nearest of `start` and the directories above it that holds `.jj`, and
/// nothing is found only if none of them does.
pub proof fn law_nearest_workspace(host: Host, start: Seq<u8>)
    ensures
        match nearest_workspace(host, start) {
            Some(root) => is_workspace_of(host, start, root),
            None => none_above(host, start),
        },
    decreases start.len(),
{
    lemma_parent(start);
    if has_jj(host, start) {
        assert(is_nearest(host, start, 0, start));
    } else if let Some(up) = parent(start) {
        law_nearest_workspace(host, up);
        if let Some(root) = nearest_workspace(host, up) {
            let i = choose|i: nat| is_nearest(host, up, i, root);
            lemma_nearest_from_parent(host, start, i, root);
            assert(is_nearest(host, start, i + 1, root));
            assert(is_workspace_of(host, start, root));
        } else {
            assert forall|i: nat| (#[trigger] ancestor(start, i)) is Some implies !has_jj(
                host,
                ancestor(start, i)->0,
            ) by {
                if i > 0 {
                    lemma_ancestor_of_parent(start, (i - 1) as nat);
                }
            }
        }
    } else {
        assert forall|i: nat| (#[trigger] ancestor(start, i)) is Some implies !has_jj(
            host,
            ancestor(start, i)->0,
        ) by {
            if i > 0 {
                lemma_no_ancestor(start, i);
            }
        }
    }
}

proof fn lemma_nearest_from_parent(host: Host, start: Seq<u8>, i: nat, root: Seq<u8>)
    requires
        parent(start) is Some,
        !has_jj(host, start),
        is_nearest(host, parent(start)->0, i, root),
    ensures
        is_nearest(host, start, i + 1, root),
{
    lemma_ancestor_of_parent(start, i);
    assert forall|j: nat| j < i + 1 implies !has_jj(host, (#[trigger] ancestor(start, j))->0) by {
        if j > 0 {
            lemma_ancestor_of_parent(start, (j - 1) as nat);
        }
    }
}

proof fn lemma_ancestor_of_parent(start: Seq<u8>, i: nat)
    requires
        parent(start) is Some,
    ensures
        ancestor(parent(start)->0, i) == ancestor(start, i + 1),
    decreases i,
{
    reveal_with_fuel(ancestor, 2);
    if i > 0 {
        lemma_ancestor_of_parent(start, (i - 1) as nat);
    }
}

proof fn lemma_no_ancestor(start: Seq<u8>, i: nat)
    requires
        parent(start) is None,
        i > 0,
    ensures
        ancestor(start, i) is None,
    decreases i,
{
    reveal_with_fuel(ancestor, 2);
    if i > 1 {
        lemma_no_ancestor(start, (i - 1) as nat);
    }
}

/// Whether each of `dirs` but the first is the parent of the one before it.
pub open spec fn goes_up(dirs: Seq<Seq<u8>>) -> bool {
    forall|i: int| 0 <= i < dirs.len() - 1 ==> #[trigger] parent(dirs[i]) == Some(dirs[i + 1])
}

/// On the way up, the first directory that holds a directory `.jj` is the root of the workspace.
pub proof fn law_workspace_found(host: Host, dirs: Seq<Seq<u8>>, steps: nat)
    requires
        dirs.len() > 0,
        goes_up(dirs),
        forall|i: int|
            0 <= i < dirs.len() - 1 ==> !#[trigger] (host.is_dir)(
                join(dirs[i], encode_utf8(".jj"@)),
            ),
        (host.is_dir)(join(dirs.last(), encode_utf8(".jj"@))),
        steps >= dirs.len(),
    ensures
        run_search(host, WorkspaceSearch::Probe { dir: dirs[0] }, steps) == (
        WorkspaceSearch::Found { root: dirs.last() }),
    decreases dirs.len(),
{
    reveal_with_fuel(run_search, 2);
    if dirs.len() > 1 {
        let rest = dirs.skip(1);
        assert(parent(dirs[0]) == Some(dirs[1]));
        assert(!(host.is_dir)(join(dirs[0], encode_utf8(".jj"@))));
        lemma_goes_on_up(dirs);
        assert forall|i: int| 0 <= i < rest.len() - 1 implies !#[trigger] (host.is_dir)(
            join(rest[i], encode_utf8(".jj"@)),
        ) by {
            assert(rest[i] == dirs[i + 1]);
        }
        law_workspace_found(host, rest, (steps - 1) as nat);
    }
}

/// If no directory up to the last one holds a directory `.jj`, there is no workspace.
pub proof fn law_workspace_not_found(host: Host, dirs: Seq<Seq<u8>>, steps: nat)
    requires
        dirs.len() > 0,
        goes_up(dirs),
        parent(dirs.last()) is None,
        forall|i: int|
            0 <= i < dirs.len() ==> !#[trigger] (host.is_dir)(join(dirs[i], encode_utf8(".jj"@))),
        steps >= dirs.len(),
    ensures
        run_search(host, WorkspaceSearch::Probe { dir: dirs[0] }, steps) == (
        WorkspaceSearch::<Seq<u8>>::NotFound),
    decreases dirs.len(),
{
    reveal_with_fuel(run_search, 2);
    assert(!(host.is_dir)(join(dirs[0], encode_utf8(".jj"@))));
    if dirs.len() > 1 {
        let rest = dirs.skip(1);
        assert(parent(dirs[0]) == Some(dirs[1]));
        lemma_goes_on_up(dirs);
        assert forall|i: int| 0 <= i < rest.len() implies !#[trigger] (host.is_dir)(
            join(rest[i], encode_utf8(".jj"@)),
        ) by {
            assert(rest[i] == dirs[i + 1]);
        }
        law_workspace_not_found(host, rest, (steps - 1) as nat);
    }
}

proof fn lemma_goes_on_up(dirs: Seq<Seq<u8>>)
    requires
        dirs.len() > 1,
        goes_up(dirs),
    ensures
        goes_up(dirs.skip(1)),
{
    let rest = dirs.skip(1);
    assert forall|i: int| 0 <= i < rest.len() - 1 implies #[trigger] parent(rest[i]) == Some(
        rest[i + 1],
    ) by {
        assert(parent(dirs[i + 1]) == Some(dirs[i + 2]));
    }
}

/// The directory of Jujutsu is the entry `.jj` of the workspace.
pub proof fn law_jj_dir(workspace_root: Seq<u8>)
    ensures
        jj_dir(workspace_root) == join(workspace_root, encode_utf8(".jj"@)),
        components(jj_dir(workspace_root)) == components(workspace_root).push(
            encode_utf8(".jj"@),
        ),
{
    reveal_strlit(".jj");
    vstd::utf8::is_ascii_chars_encode_utf8(".jj"@);
    let name = encode_utf8(".jj"@);
    assert(name =~= seq![0x2eu8, 0x6a, 0x6a]);
    assert(seq![name][0] == name);
    law_components_of_names(seq![name]);
    assert(crate::split::join_with(seq![name], 0x2fu8) == name);
    lemma_join(workspace_root, name);
    assert(components(workspace_root) + seq![name] == components(workspace_root).push(name));
}

/// There is one nearest directory that holds `.jj`, and it is the one that is found.
pub proof fn lemma_nearest_is_found(host: Host, start: Seq<u8>, i: nat, dir: Seq<u8>)
    requires
        is_nearest(host, start, i, dir),
    ensures
        nearest_workspace(host, start) == Some(dir),
    decreases i,
{
    reveal_with_fuel(ancestor, 2);
    if i > 0 {
        assert(!has_jj(host, ancestor(start, 0)->0));
        if parent(start) is None {
            lemma_no_ancestor(start, i);
        } else {
            let up = parent(start)->0;
            lemma_ancestor_of_parent(start, (i - 1) as nat);
            assert forall|j: nat| j < i - 1 implies !has_jj(host, (#[trigger] ancestor(up, j))->0) by {
                lemma_ancestor_of_parent(start, j);
                assert(!has_jj(host, ancestor(start, j + 1)->0));
            }
            lemma_nearest_is_found(host, up, (i - 1) as nat, dir);
        }
    }
}

} // verus!
