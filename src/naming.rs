//! The naming convention of published files in the shared directory:
//! `clipboard-<owner>-<timestamp>.tmp`.
use vstd::prelude::*;

use crate::text::{
    chars_of, decimal, ends_with, is_digit, lemma_decimal_digits, lemma_parse_decimal, lemma_parse_rejects,
    matches_at, parse_u64, parse_u64_at, push_decimal, starts_with,
};

verus! {

/// `clipboard-`, the start of every published file name.
pub open spec fn clip_prefix() -> Seq<char> {
    seq!['c', 'l', 'i', 'p', 'b', 'o', 'a', 'r', 'd', '-']
}

/// `.tmp`, the end of every published file name.
pub open spec fn tmp_suffix() -> Seq<char> {
    seq!['.', 't', 'm', 'p']
}

/// The name under which `owner` publishes content at time `timestamp`.
pub open spec fn publication_name(owner: Seq<char>, timestamp: nat) -> Seq<char> {
    clip_prefix() + owner + seq!['-'] + decimal(timestamp) + tmp_suffix()
}

/// Every name that `owner` publishes under starts with this.
pub open spec fn own_prefix(owner: Seq<char>) -> Seq<char> {
    clip_prefix() + owner + seq!['-']
}

/// The views of a list of names.
pub open spec fn names_of(v: Seq<String>) -> Seq<Seq<char>> {
    v.map_values(|s: String| s@)
}

/// The first position, from `from` on, of a name `n` in `remotes` such that
/// `rest` starts with `n` followed by `-`.
pub open spec fn first_owner(rest: Seq<char>, remotes: Seq<Seq<char>>, from: int) -> Option<int>
    decreases remotes.len() - from,
{
    if from < 0 || from >= remotes.len() {
        None
    } else if starts_with(rest, remotes[from] + seq!['-']) {
        Some(from)
    } else {
        first_owner(rest, remotes, from + 1)
    }
}

/// What a file name says under a list of remote names.
#[derive(PartialEq, Eq, Structural, Clone, Copy, Debug)]
pub enum Decoded {
    /// Not a publication of any listened-to owner.
    Foreign,
    /// Names a listened-to owner but does not end in `.tmp`: skipped.
    Anomalous,
    /// Names a listened-to owner and ends in `.tmp`, but holds no timestamp.
    Corrupt,
    /// A publication of `remote_names[owner]` at `timestamp`.
    Published { owner: usize, timestamp: u64 },
}

/// The decoding of `name` under `remotes`, in configured order.
pub open spec fn decode(name: Seq<char>, remotes: Seq<Seq<char>>) -> Decoded {
    if !starts_with(name, clip_prefix()) {
        Decoded::Foreign
    } else {
        let rest = name.subrange(clip_prefix().len() as int, name.len() as int);
        match first_owner(rest, remotes, 0) {
            None => Decoded::Foreign,
            Some(i) => {
                let tail = rest.subrange(remotes[i].len() as int + 1, rest.len() as int);
                if !ends_with(tail, tmp_suffix()) {
                    Decoded::Anomalous
                } else {
                    match parse_u64(tail.subrange(0, tail.len() - tmp_suffix().len())) {
                        None => Decoded::Corrupt,
                        Some(t) => Decoded::Published { owner: i as usize, timestamp: t },
                    }
                }
            },
        }
    }
}

/// `remotes[k]` is `owner`, and no name listed before it is `owner` itself or
/// a beginning of `owner` followed by `-` (which would claim `owner`'s files).
pub open spec fn listens_to(remotes: Seq<Seq<char>>, owner: Seq<char>, k: int) -> bool {
    &&& 0 <= k < remotes.len()
    &&& remotes[k] == owner
    &&& forall|j: int|
        0 <= j < k ==> #[trigger] remotes[j] != owner && !starts_with(owner, remotes[j] + seq!['-'])
}

/// No `-` follows the owner's name and its `-` in a publication name.
proof fn lemma_no_dash_after(owner: Seq<char>, t: nat, r: Seq<char>)
    requires
        r.len() > owner.len(),
    ensures
        !starts_with(owner + seq!['-'] + decimal(t) + tmp_suffix(), r + seq!['-']),
{
    let rest = owner + seq!['-'] + decimal(t) + tmp_suffix();
    let p = r + seq!['-'];
    lemma_decimal_digits(t);
    if starts_with(rest, p) {
        let at = r.len() as int;
        assert(rest.subrange(0, p.len() as int)[at] == p[at]);
        let off = at - owner.len() - 1;
        if off < decimal(t).len() {
            assert(rest[at] == decimal(t)[off]);
            assert(is_digit(decimal(t)[off]));
        } else {
            assert(rest[at] == tmp_suffix()[off - decimal(t).len()]);
        }
    }
}

/// Where a name in `remotes` claims a publication name, the name and its `-`
/// begin the owner, or the name is longer than the owner's.
proof fn lemma_claim_shape(owner: Seq<char>, t: nat, r: Seq<char>)
    requires
        starts_with(owner + seq!['-'] + decimal(t) + tmp_suffix(), r + seq!['-']),
        r != owner,
    ensures
        r.len() < owner.len(),
        starts_with(owner, r + seq!['-']),
{
    let rest = owner + seq!['-'] + decimal(t) + tmp_suffix();
    let p = r + seq!['-'];
    if r.len() > owner.len() {
        lemma_no_dash_after(owner, t, r);
    } else if r.len() == owner.len() {
        assert(r =~= owner) by {
            assert forall|i: int| 0 <= i < r.len() implies r[i] == owner[i] by {
                assert(rest.subrange(0, p.len() as int)[i] == p[i]);
                assert(rest[i] == owner[i]);
            }
        }
    } else {
        assert(owner.subrange(0, p.len() as int) =~= p) by {
            assert forall|i: int| 0 <= i < p.len() implies owner.subrange(0, p.len() as int)[i]
                == p[i] by {
                assert(rest.subrange(0, p.len() as int)[i] == p[i]);
                assert(rest[i] == owner[i]);
            }
        }
    }
}

/// No name before the owner's position claims the owner's publication.
proof fn lemma_unclaimed_before(owner: Seq<char>, t: nat, remotes: Seq<Seq<char>>, k: int, j: int)
    requires
        listens_to(remotes, owner, k),
        0 <= j <= k,
    ensures
        first_owner(owner + seq!['-'] + decimal(t) + tmp_suffix(), remotes, j) == first_owner(
            owner + seq!['-'] + decimal(t) + tmp_suffix(),
            remotes,
            k,
        ),
    decreases k - j,
{
    let rest = owner + seq!['-'] + decimal(t) + tmp_suffix();
    if j < k {
        if starts_with(rest, remotes[j] + seq!['-']) {
            lemma_claim_shape(owner, t, remotes[j]);
        }
        lemma_unclaimed_before(owner, t, remotes, k, j + 1);
    }
}

/// A publication of a listened-to owner decodes to that owner and its timestamp.
pub proof fn lemma_decode_publication(owner: Seq<char>, t: u64, remotes: Seq<Seq<char>>, k: int)
    requires
        listens_to(remotes, owner, k),
    ensures
        decode(publication_name(owner, t as nat), remotes) == (Decoded::Published {
            owner: k as usize,
            timestamp: t,
        }),
{
    let name = publication_name(owner, t as nat);
    let rest = owner + seq!['-'] + decimal(t as nat) + tmp_suffix();
    assert(name.subrange(0, 10) =~= clip_prefix());
    assert(name.subrange(10, name.len() as int) =~= rest);
    lemma_unclaimed_before(owner, t as nat, remotes, k, 0);
    assert(rest.subrange(0, owner.len() as int + 1) =~= owner + seq!['-']);
    let tail = rest.subrange(owner.len() as int + 1, rest.len() as int);
    assert(tail =~= decimal(t as nat) + tmp_suffix());
    assert(tail.subrange(tail.len() - 4, tail.len() as int) =~= tmp_suffix());
    assert(tail.subrange(0, tail.len() - 4) =~= decimal(t as nat));
    lemma_parse_decimal(t);
}

/// No publication of `local` decodes as a publication under names that do
/// not include `local`.
pub proof fn lemma_own_never_published(local: Seq<char>, t: u64, remotes: Seq<Seq<char>>)
    requires
        !remotes.contains(local),
    ensures
        !(decode(publication_name(local, t as nat), remotes) is Published),
{
    let name = publication_name(local, t as nat);
    let rest = local + seq!['-'] + decimal(t as nat) + tmp_suffix();
    assert(name.subrange(0, 10) =~= clip_prefix());
    assert(name.subrange(10, name.len() as int) =~= rest);
    match first_owner(rest, remotes, 0) {
        None => {},
        Some(i) => {
            lemma_first_owner_found(rest, remotes, 0);
            let r = remotes[i];
            assert(r != local);
            lemma_claim_shape(local, t as nat, r);
            let tail = rest.subrange(r.len() as int + 1, rest.len() as int);
            let body = tail.subrange(0, tail.len() - 4);
            let at = local.len() - r.len() - 1;
            assert(body[at] == rest[local.len() as int]);
            assert(body[at] == '-');
            lemma_parse_rejects(body, at);
        },
    }
}

/// What `first_owner` finds is a name of `remotes` followed by `-` at the start.
pub proof fn lemma_first_owner_found(rest: Seq<char>, remotes: Seq<Seq<char>>, from: int)
    requires
        first_owner(rest, remotes, from) is Some,
    ensures
        ({
            let i = first_owner(rest, remotes, from)->0;
            &&& from <= i < remotes.len()
            &&& starts_with(rest, remotes[i] + seq!['-'])
        }),
    decreases remotes.len() - from,
{
    if from >= 0 && from < remotes.len() && !starts_with(rest, remotes[from] + seq!['-']) {
        lemma_first_owner_found(rest, remotes, from + 1);
    }
}

/// A publication is attributed to a name only when the name and a `-`
/// follow `clipboard-` in it.
pub proof fn lemma_attribution(name: Seq<char>, remotes: Seq<Seq<char>>)
    requires
        decode(name, remotes) is Published,
        remotes.len() <= usize::MAX,
    ensures
        ({
            let k = decode(name, remotes)->owner;
            &&& k < remotes.len()
            &&& starts_with(name, clip_prefix() + remotes[k as int] + seq!['-'])
        }),
{
    let rest = name.subrange(10, name.len() as int);
    lemma_first_owner_found(rest, remotes, 0);
    let i = first_owner(rest, remotes, 0)->0;
    let p = clip_prefix() + remotes[i] + seq!['-'];
    assert(name.subrange(0, p.len() as int) =~= p) by {
        assert forall|j: int| 0 <= j < p.len() implies name.subrange(0, p.len() as int)[j]
            == p[j] by {
            if j < 10 {
                assert(name.subrange(0, 10)[j] == clip_prefix()[j]);
            } else {
                assert(rest.subrange(0, remotes[i].len() as int + 1)[j - 10] == (remotes[i] + seq!['-'])[j - 10]);
            }
        }
    }
}

/// The characters of `clipboard-`.
fn clip_prefix_chars() -> (r: Vec<char>)
    ensures
        r@ == clip_prefix(),
{
    let r = chars_of("clipboard-");
    proof {
        reveal_strlit("clipboard-");
    }
    assert(r@ =~= clip_prefix());
    r
}

/// The file name under which `owner` publishes at time `timestamp`.
pub fn publication_file_name(owner: &str, timestamp: u64) -> (r: String)
    ensures
        r@ == publication_name(owner@, timestamp as nat),
{
    let mut r = String::new();
    r.append("clipboard-");
    r.append(owner);
    r.append("-");
    push_decimal(&mut r, timestamp);
    r.append(".tmp");
    proof {
        reveal_strlit("clipboard-");
        reveal_strlit("-");
        reveal_strlit(".tmp");
    }
    assert(r@ =~= publication_name(owner@, timestamp as nat));
    r
}

/// Whether `name` is a publication of `owner`, by its prefix alone.
pub fn is_own_file(name: &str, owner: &str) -> (r: bool)
    ensures
        r == starts_with(name@, own_prefix(owner@)),
{
    let mut p = String::new();
    p.append("clipboard-");
    p.append(owner);
    p.append("-");
    proof {
        reveal_strlit("clipboard-");
        reveal_strlit("-");
    }
    assert(p@ =~= own_prefix(owner@));
    let n = chars_of(name);
    let pc = chars_of(p.as_str());
    let r = matches_at(&n, 0, &pc);
    assert(n@.subrange(0, n@.len() as int) =~= n@);
    r
}

/// Decodes `name` under the remote names `remotes`, tried in order.
pub fn decode_file_name(name: &str, remotes: &Vec<String>) -> (r: Decoded)
    ensures
        r == decode(name@, names_of(remotes@)),
{
    let ghost rs = names_of(remotes@);
    let n = chars_of(name);
    let pre = clip_prefix_chars();
    let ghost whole = n@.subrange(0, n@.len() as int);
    assert(whole =~= name@);
    if !matches_at(&n, 0, &pre) {
        return Decoded::Foreign;
    }
    let start: usize = pre.len();
    let ghost rest = name@.subrange(start as int, name@.len() as int);
    let mut i: usize = 0;
    while i < remotes.len()
        invariant
            i <= remotes.len(),
            rs == names_of(remotes@),
            n@ == name@,
            start == 10,
            start <= n@.len(),
            starts_with(name@, clip_prefix()),
            rest == name@.subrange(start as int, name@.len() as int),
            first_owner(rest, rs, 0) == first_owner(rest, rs, i as int),
        decreases remotes.len() - i,
    {
        let remote = chars_of(remotes[i].as_str());
        assert(remote@ == rs[i as int]);
        let matched = matches_at(&n, start, &remote) && remote.len() < n.len() - start && n[start
            + remote.len()] == '-';
        proof {
            let ghost p = rs[i as int] + seq!['-'];
            assert(n@.subrange(start as int, n@.len() as int) == rest);
            if matched {
                assert(rest.subrange(0, p.len() as int) =~= p) by {
                    assert(rest.subrange(0, remote@.len() as int) == remote@);
                }
            } else if starts_with(rest, p) {
                assert(rest.subrange(0, remote@.len() as int) =~= remote@) by {
                    assert(rest.subrange(0, p.len() as int) == p);
                    assert(rest.subrange(0, remote@.len() as int) =~= p.subrange(0, remote@.len() as int));
                }
                assert(rest[remote@.len() as int] == p[remote@.len() as int]);
            }
        }
        if matched {
            let from: usize = start + remote.len() + 1;
            let ghost tail = rest.subrange(rs[i as int].len() as int + 1, rest.len() as int);
            assert(tail =~= n@.subrange(from as int, n@.len() as int));
            if n.len() - from < 4 || n[n.len() - 4] != '.' || n[n.len() - 3] != 't'
                || n[n.len() - 2] != 'm' || n[n.len() - 1] != 'p' {
                proof {
                    if ends_with(tail, tmp_suffix()) {
                        let ghost sfx = tail.subrange(tail.len() - 4, tail.len() as int);
                        assert(sfx == tmp_suffix());
                        assert(sfx[0] == n@[n@.len() - 4]);
                        assert(sfx[1] == n@[n@.len() - 3]);
                        assert(sfx[2] == n@[n@.len() - 2]);
                        assert(sfx[3] == n@[n@.len() - 1]);
                    }
                }
                return Decoded::Anomalous;
            }
            assert(tail.subrange(tail.len() - 4, tail.len() as int) =~= tmp_suffix());
            let to: usize = n.len() - 4;
            assert(tail.subrange(0, tail.len() - 4) =~= n@.subrange(from as int, to as int));
            return match parse_u64_at(&n, from, to) {
                None => Decoded::Corrupt,
                Some(t) => Decoded::Published { owner: i, timestamp: t },
            };
        }
        i = i + 1;
    }
    Decoded::Foreign
}

} // verus!
