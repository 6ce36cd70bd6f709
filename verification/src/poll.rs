use vstd::prelude::*;

use crate::registry::latest_version;
use crate::watch::WatchMap;

verus! {

/// The notification line for one entry whose version moved.
pub open spec fn updated_line(name: Seq<char>, from: Seq<char>, to: Seq<char>) -> Seq<char> {
    "`"@ + name + "` updated from version `"@ + from + "` to `"@ + to + "`!"@
}

/// What one poll step does to the map: a watched name whose latest version
/// differs from the stored one is updated in place; anything else changes
/// nothing.
pub open spec fn poll_step_map(
    m: Map<Seq<char>, Seq<char>>,
    name: Seq<char>,
    latest: Seq<char>,
) -> Map<Seq<char>, Seq<char>> {
    if m.contains_key(name) && m[name] != latest {
        m.insert(name, latest)
    } else {
        m
    }
}

/// The notification text one poll step contributes: one line on a change,
/// nothing otherwise.
pub open spec fn poll_step_line(
    m: Map<Seq<char>, Seq<char>>,
    name: Seq<char>,
    latest: Seq<char>,
) -> Seq<char> {
    if m.contains_key(name) && m[name] != latest {
        updated_line(name, m[name], latest)
    } else {
        Seq::empty()
    }
}

/// The map after one poll pass over the listed names, first to last.
pub open spec fn poll_all_map(
    m: Map<Seq<char>, Seq<char>>,
    names: Seq<Seq<char>>,
    latests: Seq<Seq<char>>,
) -> Map<Seq<char>, Seq<char>>
    decreases names.len(),
{
    if names.len() == 0 {
        m
    } else {
        poll_all_map(
            poll_step_map(m, names.first(), latests.first()),
            names.drop_first(),
            latests.drop_first(),
        )
    }
}

/// The combined notification text of one poll pass, in order.
pub open spec fn poll_all_lines(
    m: Map<Seq<char>, Seq<char>>,
    names: Seq<Seq<char>>,
    latests: Seq<Seq<char>>,
) -> Seq<char>
    decreases names.len(),
{
    if names.len() == 0 {
        Seq::empty()
    } else {
        poll_step_line(m, names.first(), latests.first()) + poll_all_lines(
            poll_step_map(m, names.first(), latests.first()),
            names.drop_first(),
            latests.drop_first(),
        )
    }
}

/// The names of the given entries, in their order.
pub open spec fn key_seq(ps: Seq<(Seq<char>, Seq<char>)>) -> Seq<Seq<char>> {
    ps.map_values(|p: (Seq<char>, Seq<char>)| p.0)
}

/// One more name at the end of a pass is one more step after it.
proof fn lemma_poll_all_snoc(
    m: Map<Seq<char>, Seq<char>>,
    names: Seq<Seq<char>>,
    latests: Seq<Seq<char>>,
    name: Seq<char>,
    latest: Seq<char>,
)
    requires
        names.len() == latests.len(),
    ensures
        poll_all_map(m, names.push(name), latests.push(latest)) == poll_step_map(
            poll_all_map(m, names, latests),
            name,
            latest,
        ),
        poll_all_lines(m, names.push(name), latests.push(latest)) == poll_all_lines(
            m,
            names,
            latests,
        ) + poll_step_line(poll_all_map(m, names, latests), name, latest),
    decreases names.len(),
{
    let ns = names.push(name);
    let ls = latests.push(latest);
    if names.len() == 0 {
        let e: Seq<Seq<char>> = Seq::empty();
        assert(ns.first() == name);
        assert(ls.first() == latest);
        assert(ns.drop_first() =~= e);
        assert(ls.drop_first() =~= e);
        let m1 = poll_step_map(m, name, latest);
        assert(poll_all_map(m1, e, e) == m1);
        assert(poll_all_lines(m1, e, e) == Seq::<char>::empty());
        assert(poll_all_map(m, ns, ls) == poll_all_map(m1, ns.drop_first(), ls.drop_first()));
        assert(poll_all_lines(m, ns, ls) == poll_step_line(m, name, latest) + poll_all_lines(
            m1,
            ns.drop_first(),
            ls.drop_first(),
        ));
        assert(poll_all_map(m, e, e) == m);
        assert(poll_all_lines(m, e, e) == Seq::<char>::empty());
        assert(poll_step_line(m, name, latest) + Seq::<char>::empty() =~= poll_step_line(
            m,
            name,
            latest,
        ));
        assert(Seq::<char>::empty() + poll_step_line(m, name, latest) =~= poll_step_line(
            m,
            name,
            latest,
        ));
    } else {
        assert(ns.first() == names.first());
        assert(ls.first() == latests.first());
        assert(ns.drop_first() =~= names.drop_first().push(name));
        assert(ls.drop_first() =~= latests.drop_first().push(latest));
        let m1 = poll_step_map(m, names.first(), latests.first());
        lemma_poll_all_snoc(m1, names.drop_first(), latests.drop_first(), name, latest);
        assert(poll_step_line(m, names.first(), latests.first()) + (poll_all_lines(
            m1,
            names.drop_first(),
            latests.drop_first(),
        ) + poll_step_line(poll_all_map(m1, names.drop_first(), latests.drop_first()), name, latest))
            =~= (poll_step_line(m, names.first(), latests.first()) + poll_all_lines(
            m1,
            names.drop_first(),
            latests.drop_first(),
        )) + poll_step_line(poll_all_map(m1, names.drop_first(), latests.drop_first()), name, latest));
    }
}

fn build_updated_line(name: &str, from: &str, to: &str) -> (r: String)
    ensures
        r@ == updated_line(name@, from@, to@),
{
    let mut r: String = ("`").to_owned();
    r.append(name);
    r.append("` updated from version `");
    r.append(from);
    r.append("` to `");
    r.append(to);
    r.append("`!");
    r
}

/// Compare one watched name against the latest version the registry
/// reported: on a change, store the new version in place and hand back the
/// one notification line naming both versions; otherwise change nothing.
pub fn poll_one(map: &mut WatchMap, name: &str, latest: &str) -> (r: Option<String>)
    requires
        old(map).wf(),
        latest@.len() > 0,
    ensures
        final(map).wf(),
        final(map)@ == poll_step_map(old(map)@, name@, latest@),
        r is Some <==> old(map)@.contains_key(name@) && old(map)@[name@] != latest@,
        r is Some ==> r->0@ == updated_line(name@, old(map)@[name@], latest@),
        r is None ==> final(map)@ == old(map)@ && final(map).pairs() == old(map).pairs(),
        final(map).pairs().len() == old(map).pairs().len(),
        forall|j: int|
            0 <= j < old(map).pairs().len() ==> #[trigger] final(map).pairs()[j].0 == old(
                map,
            ).pairs()[j].0,
{
    match map.get(name) {
        Some(stored) => {
            if !crate::text::str_eq(stored.as_str(), latest) {
                map.insert(name, latest);
                Some(build_updated_line(name, stored.as_str(), latest))
            } else {
                None
            }
        },
        None => None,
    }
}

/// One poll pass over the given names and their freshly looked-up latest
/// versions, first to last: every changed entry is updated in place, and
/// the changes' notification lines are handed back as one text, empty when
/// nothing moved.
pub fn poll_apply(map: &mut WatchMap, names: &Vec<String>, latests: &Vec<String>) -> (out: String)
    requires
        old(map).wf(),
        names@.len() == latests@.len(),
        forall|i: int| 0 <= i < latests@.len() ==> (#[trigger] latests@[i])@.len() > 0,
    ensures
        final(map).wf(),
        final(map)@ == poll_all_map(
            old(map)@,
            names@.map_values(|s: String| s@),
            latests@.map_values(|s: String| s@),
        ),
        out@ == poll_all_lines(
            old(map)@,
            names@.map_values(|s: String| s@),
            latests@.map_values(|s: String| s@),
        ),
{
    let ghost nseq = names@.map_values(|s: String| s@);
    let ghost lseq = latests@.map_values(|s: String| s@);
    let mut out = String::new();
    let mut idx: usize = 0;
    proof {
        assert(nseq.skip(0) =~= nseq);
        assert(lseq.skip(0) =~= lseq);
    }
    while idx < names.len()
        invariant
            map.wf(),
            names@.len() == latests@.len(),
            idx <= names@.len(),
            nseq == names@.map_values(|s: String| s@),
            lseq == latests@.map_values(|s: String| s@),
            forall|i: int| 0 <= i < latests@.len() ==> (#[trigger] latests@[i])@.len() > 0,
            poll_all_map(old(map)@, nseq, lseq) == poll_all_map(
                map@,
                nseq.skip(idx as int),
                lseq.skip(idx as int),
            ),
            poll_all_lines(old(map)@, nseq, lseq) == out@ + poll_all_lines(
                map@,
                nseq.skip(idx as int),
                lseq.skip(idx as int),
            ),
        decreases names@.len() - idx,
    {
        let ghost rem_n = nseq.skip(idx as int);
        let ghost rem_l = lseq.skip(idx as int);
        let ghost pre_map = map@;
        let ghost pre_out = out@;
        match poll_one(map, names[idx].as_str(), latests[idx].as_str()) {
            Some(line) => out.append(line.as_str()),
            None => (),
        }
        proof {
            assert(rem_n.first() == nseq[idx as int]);
            assert(rem_l.first() == lseq[idx as int]);
            assert(rem_n.drop_first() =~= nseq.skip(idx as int + 1));
            assert(rem_l.drop_first() =~= lseq.skip(idx as int + 1));
            assert(pre_out + (poll_step_line(pre_map, rem_n.first(), rem_l.first())
                + poll_all_lines(
                poll_step_map(pre_map, rem_n.first(), rem_l.first()),
                rem_n.drop_first(),
                rem_l.drop_first(),
            )) =~= out@ + poll_all_lines(map@, nseq.skip(idx as int + 1), lseq.skip(
                idx as int + 1,
            )));
        }
        idx = idx + 1;
    }
    proof {
        assert(nseq.skip(idx as int) =~= Seq::<Seq<char>>::empty());
        assert(lseq.skip(idx as int) =~= Seq::<Seq<char>>::empty());
        assert(out@ + poll_all_lines(map@, nseq.skip(idx as int), lseq.skip(idx as int))
            =~= out@);
    }
    out
}

/// One whole poll cycle: look up the latest version of every watched name
/// and apply the changes, handing back the combined notification text. A
/// lookup that fails leaves its entry exactly as it was. Lookups go over
/// the network, so the clauses state what holds of every outcome: no entry
/// is ever added or dropped, and the names keep their places.
pub fn poll_cycle(map: &mut WatchMap, client: &crates_io_api::SyncClient) -> (out: String)
    requires
        old(map).wf(),
    ensures
        final(map).wf(),
        final(map)@.dom() == old(map)@.dom(),
        final(map).pairs().len() == old(map).pairs().len(),
        forall|j: int|
            0 <= j < old(map).pairs().len() ==> #[trigger] final(map).pairs()[j].0 == old(
                map,
            ).pairs()[j].0,
        exists|ls: Seq<Seq<char>>|
            #![trigger poll_all_map(old(map)@, key_seq(old(map).pairs()), ls)]
            {
                &&& ls.len() == old(map).pairs().len()
                &&& final(map)@ == poll_all_map(old(map)@, key_seq(old(map).pairs()), ls)
                &&& out@ == poll_all_lines(old(map)@, key_seq(old(map).pairs()), ls)
            },
{
    let n = map.len();
    let mut names: Vec<String> = Vec::new();
    let mut idx: usize = 0;
    while idx < n
        invariant
            map.wf(),
            map == old(map),
            n == map.pairs().len(),
            idx <= n,
            names@.len() == idx,
            forall|j: int| 0 <= j < idx ==> #[trigger] names@[j]@ == map.pairs()[j].0,
        decreases n - idx,
    {
        names.push(map.name_at(idx));
        idx = idx + 1;
    }
    let ghost nseq = names@.map_values(|s: String| s@);
    proof {
        assert(nseq =~= key_seq(old(map).pairs()));
        assert(nseq.take(0) =~= Seq::<Seq<char>>::empty());
    }
    let ghost mut ls: Seq<Seq<char>> = Seq::empty();
    let mut out = String::new();
    let mut i: usize = 0;
    while i < names.len()
        invariant
            map.wf(),
            map@.dom() == old(map)@.dom(),
            map.pairs().len() == old(map).pairs().len(),
            forall|j: int|
                0 <= j < old(map).pairs().len() ==> #[trigger] map.pairs()[j].0 == old(
                    map,
                ).pairs()[j].0,
            nseq == names@.map_values(|s: String| s@),
            i <= names@.len(),
            ls.len() == i,
            map@ == poll_all_map(old(map)@, nseq.take(i as int), ls),
            out@ == poll_all_lines(old(map)@, nseq.take(i as int), ls),
        decreases names@.len() - i,
    {
        let ghost pre_ls = ls;
        let ghost pre_map = map@;
        let ghost pre_out = out@;
        let ghost nm = nseq[i as int];
        match latest_version(client, names[i].as_str()) {
            Ok(latest) => {
                let ghost pre_dom = map@.dom();
                match poll_one(map, names[i].as_str(), latest.as_str()) {
                    Some(line) => out.append(line.as_str()),
                    None => (),
                }
                proof {
                    assert(map@.dom() =~= pre_dom);
                    ls = pre_ls.push(latest@);
                    lemma_poll_all_snoc(old(map)@, nseq.take(i as int), pre_ls, nm, latest@);
                    assert(nseq.take(i as int).push(nm) =~= nseq.take(i as int + 1));
                    assert(pre_out + Seq::<char>::empty() =~= pre_out);
                }
            },
            Err(_) => {
                proof {
                    let stay = if pre_map.contains_key(nm) {
                        pre_map[nm]
                    } else {
                        Seq::<char>::empty()
                    };
                    ls = pre_ls.push(stay);
                    lemma_poll_all_snoc(old(map)@, nseq.take(i as int), pre_ls, nm, stay);
                    assert(nseq.take(i as int).push(nm) =~= nseq.take(i as int + 1));
                    assert(poll_step_map(pre_map, nm, stay) == pre_map);
                    assert(pre_out + Seq::<char>::empty() =~= pre_out);
                }
            },
        }
        i = i + 1;
    }
    proof {
        assert(nseq.take(i as int) =~= nseq);
        assert(nseq == key_seq(old(map).pairs()));
    }
    out
}

} // verus!
