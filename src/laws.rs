//! Properties of the exchange protocol, stated over a model of the shared
//! directory (file name to contents) in which every request succeeds where
//! it can, and proved from the engine's specification.
use vstd::prelude::*;

use crate::file_handlers::{
    first_corrupt, first_where, load_choice, newest, newest_within, own_target, owned_by,
    corrupt_under, published_at, stamp, step, Event, Outcome, Phase, Progress, Request,
    lemma_newest_is,
};
use crate::naming::{
    decode, lemma_decode_publication, lemma_own_never_published, listens_to, own_prefix,
    publication_name,
};
use crate::text::starts_with;

verus! {

/// A model of the shared directory: file name to contents.
pub type Directory = Map<Seq<char>, Seq<char>>;

/// Whether `files` names each file of `dir` exactly once.
pub open spec fn lists(files: Seq<Seq<char>>, dir: Directory) -> bool {
    &&& files.no_duplicates()
    &&& forall|n: Seq<char>| dir.contains_key(n) <==> files.contains(n)
}

/// Whether `order` lists every finite directory faithfully.
pub open spec fn faithful(order: spec_fn(Directory) -> Seq<Seq<char>>) -> bool {
    forall|d: Directory| d.dom().finite() ==> lists(#[trigger] order(d), d)
}

/// `dir` without the named file, if one is named.
pub open spec fn without(dir: Directory, name: Option<Seq<char>>) -> Directory {
    match name {
        Some(n) => dir.remove(n),
        None => dir,
    }
}

/// Carries out `req` on `dir`; a listing is `order(dir)`.
pub open spec fn perform(
    dir: Directory,
    req: Request<Seq<char>>,
    order: spec_fn(Directory) -> Seq<Seq<char>>,
) -> (Event<Seq<char>, Seq<Seq<char>>>, Directory) {
    match req {
        Request::ListFiles => (Event::Listed(order(dir)), dir),
        Request::ReadFile(n) => if dir.contains_key(n) {
            (Event::Read(dir[n]), dir)
        } else {
            (Event::Failed, dir)
        },
        Request::RemoveFile(n) => if dir.contains_key(n) {
            (Event::Done, dir.remove(n))
        } else {
            (Event::Failed, dir)
        },
        Request::WriteFile(n, c) => (Event::Done, dir.insert(n, c)),
    }
}

/// Runs a session for at most `fuel` requests against `dir`.
pub open spec fn run(
    local: Seq<char>,
    remotes: Seq<Seq<char>>,
    progress: Progress<Seq<char>>,
    dir: Directory,
    order: spec_fn(Directory) -> Seq<Seq<char>>,
    fuel: nat,
) -> (Progress<Seq<char>>, Directory)
    decreases fuel,
{
    match progress {
        Progress::Pending(phase, req) => if fuel == 0 {
            (progress, dir)
        } else {
            let (event, next) = perform(dir, req, order);
            run(local, remotes, step(local, remotes, phase, event), next, order, (fuel - 1) as nat)
        },
        Progress::Complete(_) => (progress, dir),
    }
}

/// A whole load by `local`, listening to `remotes`, against `dir`.
pub open spec fn load_session(
    local: Seq<char>,
    remotes: Seq<Seq<char>>,
    dir: Directory,
    order: spec_fn(Directory) -> Seq<Seq<char>>,
) -> (Progress<Seq<char>>, Directory) {
    run(local, remotes, Progress::Pending(Phase::LoadListing, Request::ListFiles), dir, order, 5)
}

/// A whole store of `content` at `timestamp` by `local` against `dir`.
pub open spec fn store_session(
    local: Seq<char>,
    remotes: Seq<Seq<char>>,
    dir: Directory,
    order: spec_fn(Directory) -> Seq<Seq<char>>,
    content: Seq<char>,
    timestamp: u64,
) -> (Progress<Seq<char>>, Directory) {
    run(
        local,
        remotes,
        Progress::Pending(Phase::StoreListing { content, timestamp }, Request::ListFiles),
        dir,
        order,
        3,
    )
}

proof fn lemma_first_where_found(files: Seq<Seq<char>>, p: spec_fn(Seq<char>) -> bool, from: int)
    requires
        first_where(files, p, from) is Some,
    ensures
        from <= first_where(files, p, from)->0 < files.len(),
        p(files[first_where(files, p, from)->0]),
        forall|j: int| from <= j < first_where(files, p, from)->0 ==> !p(#[trigger] files[j]),
    decreases files.len() - from,
{
    if from >= 0 && from < files.len() && !p(files[from]) {
        lemma_first_where_found(files, p, from + 1);
    }
}

proof fn lemma_first_where_none(files: Seq<Seq<char>>, p: spec_fn(Seq<char>) -> bool, from: int)
    requires
        0 <= from,
        forall|j: int| from <= j < files.len() ==> !p(#[trigger] files[j]),
    ensures
        first_where(files, p, from) is None,
    decreases files.len() - from,
{
    if from < files.len() {
        lemma_first_where_none(files, p, from + 1);
    }
}

proof fn lemma_first_where_is(files: Seq<Seq<char>>, p: spec_fn(Seq<char>) -> bool, from: int, i: int)
    requires
        0 <= from <= i < files.len(),
        p(files[i]),
        forall|j: int| from <= j < i ==> !p(#[trigger] files[j]),
    ensures
        first_where(files, p, from) == Some(i),
    decreases i - from,
{
    if from < i {
        lemma_first_where_is(files, p, from + 1, i);
    }
}

proof fn lemma_first_where_some(files: Seq<Seq<char>>, p: spec_fn(Seq<char>) -> bool, from: int, i: int)
    requires
        0 <= from <= i < files.len(),
        p(files[i]),
    ensures
        first_where(files, p, from) is Some,
    decreases i - from,
{
    if from < i && !p(files[from]) {
        lemma_first_where_some(files, p, from + 1, i);
    }
}

/// The own file that is chosen is in the directory and is the only one when
/// the directory holds at most one.
proof fn lemma_own_target(files: Seq<Seq<char>>, dir: Directory, local: Seq<char>)
    requires
        lists(files, dir),
    ensures
        match own_target(files, local) {
            Some(o) => dir.contains_key(o) && starts_with(o, own_prefix(local)),
            None => forall|n: Seq<char>|
                dir.contains_key(n) ==> !starts_with(n, own_prefix(local)),
        },
{
    match first_where(files, owned_by(local), 0) {
        Some(i) => {
            lemma_first_where_found(files, owned_by(local), 0);
            assert(files.contains(files[i]));
        },
        None => {
            assert forall|n: Seq<char>| dir.contains_key(n) implies !starts_with(
                n,
                own_prefix(local),
            ) by {
                if starts_with(n, own_prefix(local)) {
                    assert(files.contains(n));
                    let i = choose|i: int| 0 <= i < files.len() && files[i] == n;
                    lemma_first_where_some(files, owned_by(local), 0, i);
                    assert(false);
                }
            }
        },
    }
}

/// The publication chosen for a load is in the directory, and no listed
/// publication of a listened-to owner is newer.
proof fn lemma_newest_in(files: Seq<Seq<char>>, dir: Directory, remotes: Seq<Seq<char>>)
    requires
        lists(files, dir),
        newest(files, remotes) is Some,
    ensures
        dir.contains_key(newest(files, remotes)->0),
        decode(newest(files, remotes)->0, remotes) is Published,
        forall|j: int|
            #[trigger] published_at(files, remotes, j) ==> stamp(files[j], remotes) <= stamp(
                newest(files, remotes)->0,
                remotes,
            ),
{
    let i = choose|i: int| newest_within(files, remotes, files.len() as int, i);
    assert(files.contains(files[i]));
}

/// A load adopts the newest publication of a listened-to owner, if any, and
/// removes exactly its own first file and the adopted one; it finds nothing
/// to adopt and changes nothing when there is no publication.
pub proof fn lemma_load_effect(
    local: Seq<char>,
    remotes: Seq<Seq<char>>,
    dir: Directory,
    order: spec_fn(Directory) -> Seq<Seq<char>>,
)
    requires
        faithful(order),
        dir.dom().finite(),
        first_corrupt(order(dir), remotes) is None,
    ensures
        ({
            let files = order(dir);
            let (p, d) = load_session(local, remotes, dir, order);
            match newest(files, remotes) {
                None => p == Progress::Complete(Ok(Outcome::<Seq<char>>::NothingToAdopt)) && d
                    == dir,
                Some(n) => {
                    &&& p == Progress::Complete(Ok(Outcome::Adopted(dir[n])))
                    &&& d == without(without(dir, own_target(files, local)), Some(n))
                    &&& forall|j: int|
                        #[trigger] published_at(files, remotes, j) ==> stamp(files[j], remotes)
                            <= stamp(n, remotes)
                },
            }
        }),
{
    reveal_with_fuel(run, 6);
    let files = order(dir);
    assert(lists(files, dir));
    match newest(files, remotes) {
        None => {},
        Some(n) => {
            lemma_newest_in(files, dir, remotes);
            lemma_own_target(files, dir, local);
            let listed = step(local, remotes, Phase::LoadListing, Event::Listed(files));
            assert(listed == Progress::Pending(Phase::LoadReading { remote: n }, Request::ReadFile(n)));
            match own_target(files, local) {
                Some(o) => {
                    let d3 = dir.remove(o);
                    if !d3.contains_key(n) {
                        assert(d3.remove(n) =~= d3);
                    }
                },
                None => {},
            }
        },
    }
}

/// A store removes this instance's first own file, if any, and writes the
/// new publication.
pub proof fn lemma_store_effect(
    local: Seq<char>,
    remotes: Seq<Seq<char>>,
    dir: Directory,
    order: spec_fn(Directory) -> Seq<Seq<char>>,
    content: Seq<char>,
    timestamp: u64,
)
    requires
        faithful(order),
        dir.dom().finite(),
    ensures
        store_session(local, remotes, dir, order, content, timestamp) == (
            Progress::Complete(Ok(Outcome::<Seq<char>>::Published)),
            without(dir, own_target(order(dir), local)).insert(
                publication_name(local, timestamp as nat),
                content,
            ),
        ),
{
    reveal_with_fuel(run, 4);
    assert(lists(order(dir), dir));
    lemma_own_target(order(dir), dir, local);
}

/// Every publication name starts with its owner's prefix.
proof fn lemma_publication_is_own(local: Seq<char>, timestamp: nat)
    ensures
        starts_with(publication_name(local, timestamp), own_prefix(local)),
{
    let n = publication_name(local, timestamp);
    assert(n.subrange(0, own_prefix(local).len() as int) =~= own_prefix(local));
}

/// Storing twice in a row leaves exactly one file of this instance, the
/// second publication, where at most one was there before.
pub proof fn lemma_store_twice(
    local: Seq<char>,
    remotes: Seq<Seq<char>>,
    dir: Directory,
    order: spec_fn(Directory) -> Seq<Seq<char>>,
    first: Seq<char>,
    first_stamp: u64,
    second: Seq<char>,
    second_stamp: u64,
)
    requires
        faithful(order),
        dir.dom().finite(),
        forall|n: Seq<char>, m: Seq<char>|
            dir.contains_key(n) && dir.contains_key(m) && starts_with(n, own_prefix(local))
                && starts_with(m, own_prefix(local)) ==> n == m,
    ensures
        ({
            let (first_end, d1) = store_session(local, remotes, dir, order, first, first_stamp);
            let (second_end, d2) = store_session(local, remotes, d1, order, second, second_stamp);
            &&& first_end == Progress::Complete(Ok(Outcome::<Seq<char>>::Published))
            &&& second_end == first_end
            &&& forall|n: Seq<char>|
                d2.contains_key(n) && starts_with(n, own_prefix(local)) <==> n == publication_name(
                    local,
                    second_stamp as nat,
                )
            &&& d2[publication_name(local, second_stamp as nat)] == second
        }),
{
    let pub1 = publication_name(local, first_stamp as nat);
    let pub2 = publication_name(local, second_stamp as nat);
    lemma_store_effect(local, remotes, dir, order, first, first_stamp);
    assert(lists(order(dir), dir));
    lemma_own_target(order(dir), dir, local);
    let d1 = without(dir, own_target(order(dir), local)).insert(pub1, first);
    lemma_publication_is_own(local, first_stamp as nat);
    lemma_publication_is_own(local, second_stamp as nat);
    assert forall|n: Seq<char>| d1.contains_key(n) && starts_with(n, own_prefix(local)) implies n
        == pub1 by {
        if n != pub1 {
            assert(dir.contains_key(n));
        }
    }
    assert(d1.dom().finite());
    lemma_store_effect(local, remotes, d1, order, second, second_stamp);
    assert(lists(order(d1), d1));
    lemma_own_target(order(d1), d1, local);
    assert(own_target(order(d1), local) == Some(pub1));
}

/// Text published by one instance is adopted unchanged by an instance that
/// listens to it, and the adopted file is gone afterwards, when no other
/// publication of the listener's owners is in the directory.
pub proof fn lemma_round_trip(
    publisher: Seq<char>,
    publisher_remotes: Seq<Seq<char>>,
    listener: Seq<char>,
    listener_remotes: Seq<Seq<char>>,
    k: int,
    dir: Directory,
    order: spec_fn(Directory) -> Seq<Seq<char>>,
    content: Seq<char>,
    timestamp: u64,
)
    requires
        faithful(order),
        dir.dom().finite(),
        listens_to(listener_remotes, publisher, k),
        listener_remotes.len() <= usize::MAX,
        forall|n: Seq<char>|
            #[trigger] dir.contains_key(n) ==> !(decode(n, listener_remotes) is Published) && !(
            decode(n, listener_remotes) is Corrupt),
    ensures
        ({
            let (stored, d1) = store_session(
                publisher,
                publisher_remotes,
                dir,
                order,
                content,
                timestamp,
            );
            let (loaded, d2) = load_session(listener, listener_remotes, d1, order);
            &&& stored == Progress::Complete(Ok(Outcome::<Seq<char>>::Published))
            &&& loaded == Progress::Complete(Ok(Outcome::Adopted(content)))
            &&& !d2.contains_key(publication_name(publisher, timestamp as nat))
        }),
{
    let name = publication_name(publisher, timestamp as nat);
    lemma_store_effect(publisher, publisher_remotes, dir, order, content, timestamp);
    let d1 = without(dir, own_target(order(dir), publisher)).insert(name, content);
    assert(d1.dom().finite());
    let files = order(d1);
    assert(lists(files, d1));
    lemma_decode_publication(publisher, timestamp, listener_remotes, k);
    assert forall|j: int| 0 <= j < files.len() implies !(corrupt_under(listener_remotes))(
        #[trigger] files[j],
    ) && (files[j] != name ==> !published_at(files, listener_remotes, j)) by {
        assert(files.contains(files[j]));
        if files[j] != name {
            assert(dir.contains_key(files[j]));
        }
    }
    lemma_first_where_none(files, corrupt_under(listener_remotes), 0);
    assert(files.contains(name));
    let i = choose|i: int| 0 <= i < files.len() && files[i] == name;
    assert forall|j: int| 0 <= j < files.len() && #[trigger] published_at(
        files,
        listener_remotes,
        j,
    ) implies j == i by {
        assert(files[j] == name);
    }
    assert(newest_within(files, listener_remotes, files.len() as int, i));
    lemma_newest_is(files, listener_remotes, i);
    lemma_load_effect(listener, listener_remotes, d1, order);
}

/// A load never chooses a publication of the loading instance itself.
pub proof fn lemma_self_exclusion(
    local: Seq<char>,
    remotes: Seq<Seq<char>>,
    files: Seq<Seq<char>>,
    timestamp: u64,
)
    requires
        !remotes.contains(local),
    ensures
        load_choice(files, remotes) != Ok::<Option<Seq<char>>, Seq<char>>(
            Some(publication_name(local, timestamp as nat)),
        ),
{
    lemma_own_never_published(local, timestamp, remotes);
    if newest(files, remotes) is Some {
        let i = choose|i: int| newest_within(files, remotes, files.len() as int, i);
        assert(published_at(files, remotes, i));
    }
}

/// A name that a listened-to owner's prefix claims but that lacks `.tmp`
/// changes nothing in what a load chooses, wherever it is listed.
pub proof fn lemma_anomalous_ignored(
    files: Seq<Seq<char>>,
    remotes: Seq<Seq<char>>,
    k: int,
    anomalous: Seq<char>,
)
    requires
        0 <= k <= files.len(),
        decode(anomalous, remotes) is Anomalous,
    ensures
        load_choice(files.insert(k, anomalous), remotes) == load_choice(files, remotes),
{
    let g = files.insert(k, anomalous);
    let p = corrupt_under(remotes);
    assert(g.len() == files.len() + 1);
    assert forall|j: int| 0 <= j < files.len() implies #[trigger] files[j] == g[if j < k {
        j
    } else {
        j + 1
    }] by {}
    // Where each position of `g` came from.
    assert forall|j: int| 0 <= j < g.len() && j != k implies #[trigger] g[j] == files[if j < k {
        j
    } else {
        j - 1
    }] by {}
    assert(!p(g[k]));
    match first_where(files, p, 0) {
        Some(i) => {
            lemma_first_where_found(files, p, 0);
            let gi = if i < k {
                i
            } else {
                i + 1
            };
            assert forall|j: int| 0 <= j < gi implies !p(#[trigger] g[j]) by {
                if j != k {
                    let fj = if j < k {
                        j
                    } else {
                        j - 1
                    };
                    assert(!p(files[fj]));
                }
            }
            lemma_first_where_is(g, p, 0, gi);
        },
        None => {
            assert forall|j: int| 0 <= j < g.len() implies !p(#[trigger] g[j]) by {
                if j != k {
                    let fj = if j < k {
                        j
                    } else {
                        j - 1
                    };
                    if p(files[fj]) {
                        lemma_first_where_some(files, p, 0, fj);
                        assert(false);
                    }
                }
            }
            lemma_first_where_none(g, p, 0);
            lemma_newest_shift(files, remotes, k, anomalous);
        },
    }
}

/// Inserting a name that is no publication keeps the newest publication.
proof fn lemma_newest_shift(files: Seq<Seq<char>>, remotes: Seq<Seq<char>>, k: int, a: Seq<char>)
    requires
        0 <= k <= files.len(),
        !(decode(a, remotes) is Published),
    ensures
        newest(files.insert(k, a), remotes) == newest(files, remotes),
{
    let g = files.insert(k, a);
    let n = files.len() as int;
    assert forall|j: int| 0 <= j < n implies #[trigger] published_at(files, remotes, j)
        == published_at(g, remotes, if j < k {
        j
    } else {
        j + 1
    }) && files[j] == g[if j < k {
        j
    } else {
        j + 1
    }] by {}
    assert forall|j: int| 0 <= j < g.len() && j != k implies #[trigger] published_at(
        g,
        remotes,
        j,
    ) == published_at(files, remotes, if j < k {
        j
    } else {
        j - 1
    }) && g[j] == files[if j < k {
        j
    } else {
        j - 1
    }] by {}
    assert(!published_at(g, remotes, k));
    if exists|i: int| newest_within(files, remotes, n, i) {
        let i = choose|i: int| newest_within(files, remotes, n, i);
        let gi = if i < k {
            i
        } else {
            i + 1
        };
        assert forall|j: int| 0 <= j < g.len() && #[trigger] published_at(g, remotes, j) implies stamp(
            g[j],
            remotes,
        ) <= stamp(g[gi], remotes) && (j < gi ==> stamp(g[j], remotes) < stamp(g[gi], remotes)) by {
            let fj = if j < k {
                j
            } else {
                j - 1
            };
            assert(published_at(files, remotes, fj));
        }
        assert(newest_within(g, remotes, g.len() as int, gi));
        lemma_newest_is(g, remotes, gi);
        lemma_newest_is(files, remotes, i);
    } else {
        if exists|i: int| newest_within(g, remotes, g.len() as int, i) {
            let gi = choose|i: int| newest_within(g, remotes, g.len() as int, i);
            let i = if gi < k {
                gi
            } else {
                gi - 1
            };
            assert forall|j: int| 0 <= j < n && #[trigger] published_at(files, remotes, j) implies stamp(
                files[j],
                remotes,
            ) <= stamp(files[i], remotes) && (j < i ==> stamp(files[j], remotes) < stamp(
                files[i],
                remotes,
            )) by {
                let gj = if j < k {
                    j
                } else {
                    j + 1
                };
                assert(published_at(g, remotes, gj));
            }
            assert(newest_within(files, remotes, n, i));
        }
    }
}

} // verus!
