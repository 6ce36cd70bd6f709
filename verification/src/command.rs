use vstd::prelude::*;

use crate::registry::RegistryError;
use crate::text::{lemma_skip_skip, lemma_token_len_is, split_names, split_ws, str_eq, token_len};
use crate::watch::WatchMap;

verus! {

/// The chat commands the bot answers.
#[derive(Clone, Copy, Debug, PartialEq, Eq, Structural)]
pub enum Command {
    Add,
    Remove,
    List,
    Help,
}

// ---- reply text, at the specification level ----

pub open spec fn added_line(name: Seq<char>, version: Seq<char>) -> Seq<char> {
    "Added `"@ + name + "` version `"@ + version + "`\n"@
}

pub open spec fn not_found_line(name: Seq<char>) -> Seq<char> {
    "Error: `"@ + name + "` not found\n"@
}

pub open spec fn lookup_failed_line(name: Seq<char>, why: Seq<char>) -> Seq<char> {
    "Error: `"@ + name + "`, "@ + why + "\n"@
}

pub open spec fn removed_line(name: Seq<char>, version: Seq<char>) -> Seq<char> {
    "Removed `"@ + name + "` (version `"@ + version + "`)\n"@
}

pub open spec fn not_watched_line(name: Seq<char>) -> Seq<char> {
    "Error: `"@ + name + "` being watched\n"@
}

pub open spec fn list_line(name: Seq<char>, version: Seq<char>) -> Seq<char> {
    "`"@ + name + "`:\t`"@ + version + "`\n"@
}

pub open spec fn nothing_watched_text() -> Seq<char> {
    "No crates being watched"@
}

pub open spec fn help_text_spec() -> Seq<char> {
    "\n!add <crate>... - Add crates to be watched;\n!list - List watched crates.\n!remove <crate>... - Remove crates from watch list.\n!help - Show this dialog.\n"@
}

// ---- exec builders for the reply lines ----

fn build_added_line(name: &str, version: &str) -> (r: String)
    ensures
        r@ == added_line(name@, version@),
{
    let mut r: String = ("Added `").to_owned();
    r.append(name);
    r.append("` version `");
    r.append(version);
    r.append("`\n");
    r
}

fn build_not_found_line(name: &str) -> (r: String)
    ensures
        r@ == not_found_line(name@),
{
    let mut r: String = ("Error: `").to_owned();
    r.append(name);
    r.append("` not found\n");
    r
}

fn build_lookup_failed_line(name: &str, why: &str) -> (r: String)
    ensures
        r@ == lookup_failed_line(name@, why@),
{
    let mut r: String = ("Error: `").to_owned();
    r.append(name);
    r.append("`, ");
    r.append(why);
    r.append("\n");
    r
}

fn build_removed_line(name: &str, version: &str) -> (r: String)
    ensures
        r@ == removed_line(name@, version@),
{
    let mut r: String = ("Removed `").to_owned();
    r.append(name);
    r.append("` (version `");
    r.append(version);
    r.append("`)\n");
    r
}

fn build_not_watched_line(name: &str) -> (r: String)
    ensures
        r@ == not_watched_line(name@),
{
    let mut r: String = ("Error: `").to_owned();
    r.append(name);
    r.append("` being watched\n");
    r
}

fn build_list_line(name: &str, version: &str) -> (r: String)
    ensures
        r@ == list_line(name@, version@),
{
    let mut r: String = ("`").to_owned();
    r.append(name);
    r.append("`:\t`");
    r.append(version);
    r.append("`\n");
    r
}

/// The fixed usage text.
pub fn help_text() -> (r: String)
    ensures
        r@ == help_text_spec(),
{
    ("\n!add <crate>... - Add crates to be watched;\n!list - List watched crates.\n!remove <crate>... - Remove crates from watch list.\n!help - Show this dialog.\n").to_owned()
}

// ---- add ----

/// What one add step does to the map: a successful lookup inserts or
/// overwrites the entry, a failed one changes nothing.
pub open spec fn add_step_map(
    m: Map<Seq<char>, Seq<char>>,
    name: Seq<char>,
    res: Result<String, RegistryError>,
) -> Map<Seq<char>, Seq<char>> {
    match res {
        Ok(v) => m.insert(name, v@),
        Err(_) => m,
    }
}

/// Whether some entry carries the given name.
pub open spec fn pairs_has(ps: Seq<(Seq<char>, Seq<char>)>, name: Seq<char>) -> bool {
    exists|i: int| 0 <= i < ps.len() && ps[i].0 == name
}

/// What one successful add does to the ordered entries: an existing entry
/// keeps its place and takes the new version, a new name goes to the end.
pub open spec fn pairs_put(
    ps: Seq<(Seq<char>, Seq<char>)>,
    name: Seq<char>,
    version: Seq<char>,
) -> Seq<(Seq<char>, Seq<char>)> {
    if pairs_has(ps, name) {
        Seq::new(
            ps.len(),
            |i: int|
                if ps[i].0 == name {
                    (name, version)
                } else {
                    ps[i]
                },
        )
    } else {
        ps.push((name, version))
    }
}

/// What one add step does to the ordered entries.
pub open spec fn add_step_pairs(
    ps: Seq<(Seq<char>, Seq<char>)>,
    name: Seq<char>,
    res: Result<String, RegistryError>,
) -> Seq<(Seq<char>, Seq<char>)> {
    match res {
        Ok(v) => pairs_put(ps, name, v@),
        Err(_) => ps,
    }
}

/// The ordered entries after adding every name with its lookup result,
/// first to last.
pub open spec fn add_all_pairs(
    ps: Seq<(Seq<char>, Seq<char>)>,
    names: Seq<Seq<char>>,
    results: Seq<Result<String, RegistryError>>,
) -> Seq<(Seq<char>, Seq<char>)>
    decreases names.len(),
{
    if names.len() == 0 {
        ps
    } else {
        add_all_pairs(
            add_step_pairs(ps, names.first(), results.first()),
            names.drop_first(),
            results.drop_first(),
        )
    }
}

/// The reply line one add step appends for its name.
pub open spec fn add_line(name: Seq<char>, res: Result<String, RegistryError>) -> Seq<char> {
    match res {
        Ok(v) => added_line(name, v@),
        Err(RegistryError::NotFound) => not_found_line(name),
        Err(RegistryError::Other(why)) => lookup_failed_line(name, why@),
    }
}

/// The map after adding every name with its lookup result, first to last.
pub open spec fn add_all_map(
    m: Map<Seq<char>, Seq<char>>,
    names: Seq<Seq<char>>,
    results: Seq<Result<String, RegistryError>>,
) -> Map<Seq<char>, Seq<char>>
    decreases names.len(),
{
    if names.len() == 0 {
        m
    } else {
        add_all_map(
            add_step_map(m, names.first(), results.first()),
            names.drop_first(),
            results.drop_first(),
        )
    }
}

/// The reply lines of adding every name with its lookup result, in order.
pub open spec fn add_all_lines(
    names: Seq<Seq<char>>,
    results: Seq<Result<String, RegistryError>>,
) -> Seq<char>
    decreases names.len(),
{
    if names.len() == 0 {
        Seq::empty()
    } else {
        add_line(names.first(), results.first()) + add_all_lines(
            names.drop_first(),
            results.drop_first(),
        )
    }
}

/// Record one name's lookup result: insert on success, and in every case
/// hand back the reply line for that name.
pub fn add_one(map: &mut WatchMap, name: &str, res: &Result<String, RegistryError>) -> (line:
    String)
    requires
        old(map).wf(),
        (*res) is Ok ==> ((*res)->Ok_0)@.len() > 0,
    ensures
        final(map).wf(),
        final(map)@ == add_step_map(old(map)@, name@, *res),
        final(map).pairs() == add_step_pairs(old(map).pairs(), name@, *res),
        line@ == add_line(name@, *res),
{
    match res {
        Ok(v) => {
            proof {
                crate::watch::lemma_pairs_agree_with_view(*old(map));
            }
            map.insert(name, v.as_str());
            proof {
                if old(map)@.contains_key(name@) {
                    let j = choose|j: int|
                        0 <= j < old(map).pairs().len() && old(map).pairs()[j] == (
                        name@,
                        old(map)@[name@],
                        );
                    assert(old(map).pairs()[j].0 == name@);
                    assert(pairs_has(old(map).pairs(), name@));
                    assert(map.pairs() =~= pairs_put(old(map).pairs(), name@, v@));
                } else {
                    assert(!pairs_has(old(map).pairs(), name@)) by {
                        if pairs_has(old(map).pairs(), name@) {
                            let j = choose|j: int|
                                0 <= j < old(map).pairs().len() && old(map).pairs()[j].0 == name@;
                            assert(old(map)@.contains_key(old(map).pairs()[j].0));
                        }
                    }
                    assert(map.pairs() =~= pairs_put(old(map).pairs(), name@, v@));
                }
            }
            build_added_line(name, v.as_str())
        },
        Err(RegistryError::NotFound) => build_not_found_line(name),
        Err(RegistryError::Other(why)) => build_lookup_failed_line(name, why.as_str()),
    }
}

/// Record a whole list of names with their lookup results, first to last,
/// and build the combined reply; with no names at all the reply is the
/// canonical empty-state text.
pub fn apply_add(
    map: &mut WatchMap,
    names: &Vec<String>,
    results: &Vec<Result<String, RegistryError>>,
) -> (reply: String)
    requires
        old(map).wf(),
        names@.len() == results@.len(),
        forall|i: int|
            0 <= i < results@.len() ==> ((#[trigger] results@[i]) is Ok ==> (
            results@[i]->Ok_0)@.len() > 0),
    ensures
        final(map).wf(),
        final(map)@ == add_all_map(old(map)@, names@.map_values(|s: String| s@), results@),
        final(map).pairs() == add_all_pairs(
            old(map).pairs(),
            names@.map_values(|s: String| s@),
            results@,
        ),
        reply@ == if names@.len() == 0 {
            nothing_watched_text()
        } else {
            add_all_lines(names@.map_values(|s: String| s@), results@)
        },
{
    let ghost nseq = names@.map_values(|s: String| s@);
    if names.len() == 0 {
        return ("No crates being watched").to_owned();
    }
    let mut reply = String::new();
    let mut idx: usize = 0;
    proof {
        assert(nseq.skip(0) =~= nseq);
        assert(results@.skip(0) =~= results@);
    }
    while idx < names.len()
        invariant
            map.wf(),
            names@.len() == results@.len(),
            idx <= names@.len(),
            nseq == names@.map_values(|s: String| s@),
            forall|i: int|
                0 <= i < results@.len() ==> ((#[trigger] results@[i]) is Ok ==> (
                results@[i]->Ok_0)@.len() > 0),
            add_all_map(old(map)@, nseq, results@) == add_all_map(
                map@,
                nseq.skip(idx as int),
                results@.skip(idx as int),
            ),
            add_all_pairs(old(map).pairs(), nseq, results@) == add_all_pairs(
                map.pairs(),
                nseq.skip(idx as int),
                results@.skip(idx as int),
            ),
            add_all_lines(nseq, results@) == reply@ + add_all_lines(
                nseq.skip(idx as int),
                results@.skip(idx as int),
            ),
        decreases names@.len() - idx,
    {
        let ghost rem_n = nseq.skip(idx as int);
        let ghost rem_r = results@.skip(idx as int);
        let ghost pre_reply = reply@;
        let line = add_one(map, names[idx].as_str(), &results[idx]);
        reply.append(line.as_str());
        proof {
            assert(rem_n.first() == nseq[idx as int]);
            assert(rem_r.first() == results@[idx as int]);
            assert(rem_n.drop_first() =~= nseq.skip(idx as int + 1));
            assert(rem_r.drop_first() =~= results@.skip(idx as int + 1));
            assert(pre_reply + (add_line(rem_n.first(), rem_r.first()) + add_all_lines(
                rem_n.drop_first(),
                rem_r.drop_first(),
            )) =~= reply@ + add_all_lines(rem_n.drop_first(), rem_r.drop_first()));
        }
        idx = idx + 1;
    }
    proof {
        assert(nseq.skip(idx as int) =~= Seq::<Seq<char>>::empty());
        assert(results@.skip(idx as int) =~= Seq::<Result<String, RegistryError>>::empty());
        assert(reply@ + add_all_lines(nseq.skip(idx as int), results@.skip(idx as int))
            =~= reply@);
    }
    reply
}

/// Adding never touches an entry whose name was not in the list.
proof fn lemma_add_all_map_untouched(
    m: Map<Seq<char>, Seq<char>>,
    names: Seq<Seq<char>>,
    results: Seq<Result<String, RegistryError>>,
    k: Seq<char>,
)
    requires
        !names.contains(k),
    ensures
        add_all_map(m, names, results).contains_key(k) == m.contains_key(k),
        m.contains_key(k) ==> add_all_map(m, names, results)[k] == m[k],
    decreases names.len(),
{
    if names.len() > 0 {
        assert(names[0] != k);
        assert(!names.drop_first().contains(k)) by {
            assert forall|i: int| 0 <= i < names.drop_first().len() implies names.drop_first()[i]
                != k by {
                assert(names.drop_first()[i] == names[i + 1]);
            }
        }
        lemma_add_all_map_untouched(
            add_step_map(m, names.first(), results.first()),
            names.drop_first(),
            results.drop_first(),
            k,
        );
    }
}

/// Look every listed name up in the registry and record the answers.
/// What each lookup returns depends on the network, so the clauses state
/// what holds of every outcome: an empty name list leaves the map as it was
/// and earns the canonical empty-state reply, and no entry is touched whose
/// name is not in the list.
pub fn handle_add(map: &mut WatchMap, client: &crates_io_api::SyncClient, tail: &str) -> (reply:
    String)
    requires
        old(map).wf(),
    ensures
        final(map).wf(),
        split_ws(tail@).len() == 0 ==> final(map)@ == old(map)@ && final(map).pairs() == old(
            map,
        ).pairs() && reply@ == nothing_watched_text(),
        exists|rs: Seq<Result<String, RegistryError>>|
            #![trigger add_all_map(old(map)@, split_ws(tail@), rs)]
            {
                &&& rs.len() == split_ws(tail@).len()
                &&& final(map)@ == add_all_map(old(map)@, split_ws(tail@), rs)
                &&& final(map).pairs() == add_all_pairs(old(map).pairs(), split_ws(tail@), rs)
                &&& split_ws(tail@).len() > 0 ==> reply@ == add_all_lines(split_ws(tail@), rs)
            },
        forall|k: Seq<char>|
            !split_ws(tail@).contains(k) ==> final(map)@.contains_key(k) == old(
                map,
            )@.contains_key(k) && (old(map)@.contains_key(k) ==> final(map)@[k] == old(map)@[k]),
{
    let names = split_names(tail);
    let mut results: Vec<Result<String, RegistryError>> = Vec::new();
    let mut idx: usize = 0;
    while idx < names.len()
        invariant
            idx <= names@.len(),
            results@.len() == idx,
            forall|j: int|
                0 <= j < results@.len() ==> ((#[trigger] results@[j]) is Ok ==> (
                results@[j]->Ok_0)@.len() > 0),
        decreases names@.len() - idx,
    {
        results.push(crate::registry::latest_version(client, names[idx].as_str()));
        idx = idx + 1;
    }
    let reply = apply_add(map, &names, &results);
    proof {
        let nseq = names@.map_values(|s: String| s@);
        assert(results@.len() == split_ws(tail@).len() && map@ == add_all_map(
            old(map)@,
            split_ws(tail@),
            results@,
        ) && map.pairs() == add_all_pairs(old(map).pairs(), split_ws(tail@), results@) && (
        split_ws(tail@).len() > 0 ==> reply@ == add_all_lines(split_ws(tail@), results@)));
        assert(exists|rs: Seq<Result<String, RegistryError>>|
            #![trigger add_all_map(old(map)@, split_ws(tail@), rs)]
            {
                &&& rs.len() == split_ws(tail@).len()
                &&& map@ == add_all_map(old(map)@, split_ws(tail@), rs)
                &&& map.pairs() == add_all_pairs(old(map).pairs(), split_ws(tail@), rs)
                &&& split_ws(tail@).len() > 0 ==> reply@ == add_all_lines(split_ws(tail@), rs)
            });
        assert forall|k: Seq<char>| !split_ws(tail@).contains(k) implies map@.contains_key(k)
            == old(map)@.contains_key(k) && (old(map)@.contains_key(k) ==> map@[k] == old(
            map,
        )@[k]) by {
            lemma_add_all_map_untouched(old(map)@, nseq, results@, k);
        }
    }
    reply
}

// ---- remove ----

/// The reply line for removing one name from the given map.
pub open spec fn remove_line(m: Map<Seq<char>, Seq<char>>, name: Seq<char>) -> Seq<char> {
    if m.contains_key(name) {
        removed_line(name, m[name])
    } else {
        not_watched_line(name)
    }
}

/// The map after removing every listed name, first to last.
pub open spec fn remove_all_map(m: Map<Seq<char>, Seq<char>>, names: Seq<Seq<char>>) -> Map<
    Seq<char>,
    Seq<char>,
>
    decreases names.len(),
{
    if names.len() == 0 {
        m
    } else {
        remove_all_map(m.remove(names.first()), names.drop_first())
    }
}

/// The reply lines of removing every listed name, first to last.
pub open spec fn remove_all_lines(m: Map<Seq<char>, Seq<char>>, names: Seq<Seq<char>>) -> Seq<
    char,
>
    decreases names.len(),
{
    if names.len() == 0 {
        Seq::empty()
    } else {
        remove_line(m, names.first()) + remove_all_lines(
            m.remove(names.first()),
            names.drop_first(),
        )
    }
}

/// Remove one name; a name never added changes nothing and earns the
/// per-name error line.
pub fn remove_one(map: &mut WatchMap, name: &str) -> (line: String)
    requires
        old(map).wf(),
    ensures
        final(map).wf(),
        final(map)@ == old(map)@.remove(name@),
        line@ == remove_line(old(map)@, name@),
        !old(map)@.contains_key(name@) ==> final(map)@ == old(map)@ && final(map).pairs() == old(
            map,
        ).pairs() && line@ == not_watched_line(name@),
{
    match map.remove(name) {
        Some(version) => build_removed_line(name, version.as_str()),
        None => {
            proof {
                assert(old(map)@.remove(name@) =~= old(map)@);
            }
            build_not_watched_line(name)
        },
    }
}

/// Remove every listed name, first to last, and build the combined reply,
/// which is empty when the list is.
pub fn apply_remove(map: &mut WatchMap, names: &Vec<String>) -> (reply: String)
    requires
        old(map).wf(),
    ensures
        final(map).wf(),
        final(map)@ == remove_all_map(old(map)@, names@.map_values(|s: String| s@)),
        reply@ == remove_all_lines(old(map)@, names@.map_values(|s: String| s@)),
{
    let ghost nseq = names@.map_values(|s: String| s@);
    let mut reply = String::new();
    let mut idx: usize = 0;
    proof {
        assert(nseq.skip(0) =~= nseq);
    }
    while idx < names.len()
        invariant
            map.wf(),
            idx <= names@.len(),
            nseq == names@.map_values(|s: String| s@),
            remove_all_map(old(map)@, nseq) == remove_all_map(map@, nseq.skip(idx as int)),
            remove_all_lines(old(map)@, nseq) == reply@ + remove_all_lines(
                map@,
                nseq.skip(idx as int),
            ),
        decreases names@.len() - idx,
    {
        let ghost rem_n = nseq.skip(idx as int);
        let ghost pre_map = map@;
        let ghost pre_reply = reply@;
        let line = remove_one(map, names[idx].as_str());
        reply.append(line.as_str());
        proof {
            assert(rem_n.first() == nseq[idx as int]);
            assert(rem_n.drop_first() =~= nseq.skip(idx as int + 1));
            assert(pre_reply + (remove_line(pre_map, rem_n.first()) + remove_all_lines(
                pre_map.remove(rem_n.first()),
                rem_n.drop_first(),
            )) =~= reply@ + remove_all_lines(map@, nseq.skip(idx as int + 1)));
        }
        idx = idx + 1;
    }
    proof {
        assert(nseq.skip(idx as int) =~= Seq::<Seq<char>>::empty());
        assert(reply@ + remove_all_lines(map@, nseq.skip(idx as int)) =~= reply@);
    }
    reply
}

/// Remove the names written in the command tail.
pub fn handle_remove(map: &mut WatchMap, tail: &str) -> (reply: String)
    requires
        old(map).wf(),
    ensures
        final(map).wf(),
        final(map)@ == remove_all_map(old(map)@, split_ws(tail@)),
        reply@ == remove_all_lines(old(map)@, split_ws(tail@)),
{
    let names = split_names(tail);
    apply_remove(map, &names)
}

// ---- list ----

/// The list reply for the given entries, one line each, in their order.
pub open spec fn list_all_lines(ps: Seq<(Seq<char>, Seq<char>)>) -> Seq<char>
    decreases ps.len(),
{
    if ps.len() == 0 {
        Seq::empty()
    } else {
        list_line(ps.first().0, ps.first().1) + list_all_lines(ps.drop_first())
    }
}

/// Render the watch list, one line per entry in insertion order, or the
/// canonical empty-state text when nothing is watched.
pub fn render_list(map: &WatchMap) -> (reply: String)
    requires
        map.wf(),
    ensures
        reply@ == if map.pairs().len() == 0 {
            nothing_watched_text()
        } else {
            list_all_lines(map.pairs())
        },
{
    if map.is_empty() {
        return ("No crates being watched").to_owned();
    }
    let mut reply = String::new();
    let mut idx: usize = 0;
    let n = map.len();
    proof {
        assert(map.pairs().skip(0) =~= map.pairs());
    }
    while idx < n
        invariant
            map.wf(),
            n == map.pairs().len(),
            idx <= n,
            list_all_lines(map.pairs()) == reply@ + list_all_lines(map.pairs().skip(idx as int)),
        decreases n - idx,
    {
        let ghost rem = map.pairs().skip(idx as int);
        let ghost pre_reply = reply@;
        let name = map.name_at(idx);
        let version = map.version_at(idx);
        let line = build_list_line(name.as_str(), version.as_str());
        reply.append(line.as_str());
        proof {
            assert(rem.first() == map.pairs()[idx as int]);
            assert(rem.drop_first() =~= map.pairs().skip(idx as int + 1));
            assert(pre_reply + (list_line(rem.first().0, rem.first().1) + list_all_lines(
                rem.drop_first(),
            )) =~= reply@ + list_all_lines(map.pairs().skip(idx as int + 1)));
        }
        idx = idx + 1;
    }
    proof {
        assert(map.pairs().skip(idx as int) =~= Seq::<(Seq<char>, Seq<char>)>::empty());
        assert(reply@ + list_all_lines(map.pairs().skip(idx as int)) =~= reply@);
    }
    reply
}

// ---- parsing ----

/// What a message body means: a command and its tail, or nothing. A body
/// commands the bot when it starts with the prefix mark directly followed
/// by a known command word; the tail is everything after that word.
pub open spec fn parse_spec(body: Seq<char>) -> Option<(Command, Seq<char>)> {
    if body.len() == 0 || body[0] != '!' {
        None
    } else {
        let rest = body.skip(1);
        if token_len(rest) == 0 {
            None
        } else {
            let tok = rest.take(token_len(rest) as int);
            let tail = rest.skip(token_len(rest) as int);
            if tok == "add"@ {
                Some((Command::Add, tail))
            } else if tok == "remove"@ {
                Some((Command::Remove, tail))
            } else if tok == "list"@ {
                Some((Command::List, tail))
            } else if tok == "help"@ {
                Some((Command::Help, tail))
            } else {
                None
            }
        }
    }
}

/// Read the command and its tail out of a message body.
pub fn parse_command(body: &str) -> (r: Option<(Command, String)>)
    ensures
        r is Some <==> parse_spec(body@) is Some,
        r is Some ==> (r->0).0 == (parse_spec(body@)->0).0 && (r->0).1@ == (parse_spec(body@)->0).1,
{
    let len = body.unicode_len();
    if len == 0 || body.get_char(0) != '!' {
        return None;
    }
    let mut j: usize = 1;
    while j < len && body.get_char(j) != ' '
        invariant
            len == body@.len(),
            1 <= j <= len,
            forall|t: int| 1 <= t < j ==> body@[t] != ' ',
        decreases len - j,
    {
        j = j + 1;
    }
    proof {
        let rest = body@.skip(1);
        assert forall|t: int| 0 <= t < j - 1 implies rest[t] != ' ' by {
            assert(body@[t + 1] != ' ');
        }
        if j < len {
            assert(rest[j as int - 1] == body@[j as int]);
        }
        lemma_token_len_is(rest, j as int - 1);
    }
    if j == 1 {
        return None;
    }
    let token = body.substring_char(1, j);
    proof {
        let rest = body@.skip(1);
        assert(token@ =~= rest.take(token_len(rest) as int));
        lemma_skip_skip(body@, 1, j as int - 1);
        assert(body@.subrange(j as int, len as int) =~= rest.skip(token_len(rest) as int));
    }
    let tail = body.substring_char(j, len).to_owned();
    if str_eq(token, "add") {
        Some((Command::Add, tail))
    } else if str_eq(token, "remove") {
        Some((Command::Remove, tail))
    } else if str_eq(token, "list") {
        Some((Command::List, tail))
    } else if str_eq(token, "help") {
        Some((Command::Help, tail))
    } else {
        None
    }
}

// ---- dispatch ----

/// Answer one inbound message: act only on messages from the watched room
/// whose body parses as a command, mutate the watch list as the command
/// asks, and hand back the single reply to send, or nothing.
pub fn handle_message(
    map: &mut WatchMap,
    client: &crates_io_api::SyncClient,
    room: &str,
    msg_room: &str,
    body: &str,
) -> (reply: Option<String>)
    requires
        old(map).wf(),
    ensures
        final(map).wf(),
        msg_room@ != room@ ==> reply is None && final(map)@ == old(map)@ && final(map).pairs()
            == old(map).pairs(),
        msg_room@ == room@ && parse_spec(body@) is None ==> reply is None && final(map)@ == old(
            map,
        )@ && final(map).pairs() == old(map).pairs(),
        msg_room@ == room@ && parse_spec(body@) is Some ==> reply is Some && {
            let cmd = (parse_spec(body@)->0).0;
            let tail = (parse_spec(body@)->0).1;
            &&& cmd == Command::Help ==> final(map)@ == old(map)@ && final(map).pairs() == old(
                map,
            ).pairs() && reply->0@ == help_text_spec()
            &&& cmd == Command::List ==> final(map)@ == old(map)@ && final(map).pairs() == old(
                map,
            ).pairs() && reply->0@ == (if old(map).pairs().len() == 0 {
                nothing_watched_text()
            } else {
                list_all_lines(old(map).pairs())
            })
            &&& cmd == Command::Remove ==> final(map)@ == remove_all_map(
                old(map)@,
                split_ws(tail),
            ) && reply->0@ == remove_all_lines(old(map)@, split_ws(tail))
            &&& cmd == Command::Add ==> (split_ws(tail).len() == 0 ==> final(map)@ == old(map)@
                && final(map).pairs() == old(map).pairs() && reply->0@
                == nothing_watched_text()) && (forall|k: Seq<char>|
                !split_ws(tail).contains(k) ==> final(map)@.contains_key(k) == old(
                    map,
                )@.contains_key(k) && (old(map)@.contains_key(k) ==> final(map)@[k] == old(
                    map,
                )@[k])) && (exists|rs: Seq<Result<String, RegistryError>>|
                #![trigger add_all_map(old(map)@, split_ws(tail), rs)]
                {
                    &&& rs.len() == split_ws(tail).len()
                    &&& final(map)@ == add_all_map(old(map)@, split_ws(tail), rs)
                    &&& final(map).pairs() == add_all_pairs(old(map).pairs(), split_ws(tail), rs)
                    &&& split_ws(tail).len() > 0 ==> reply->0@ == add_all_lines(
                        split_ws(tail),
                        rs,
                    )
                })
        },
{
    if !str_eq(msg_room, room) {
        return None;
    }
    match parse_command(body) {
        None => None,
        Some((cmd, tail)) => match cmd {
            Command::List => Some(render_list(&*map)),
            Command::Help => Some(help_text()),
            Command::Add => Some(handle_add(map, client, tail.as_str())),
            Command::Remove => Some(handle_remove(map, tail.as_str())),
        },
    }
}

// ---- laws ----

/// Law: adding the same name twice with the same successful registry answer
/// gives the same map as adding it once — one entry for the name, holding
/// that version — while the reply still carries one success line per add.
pub proof fn lemma_add_twice_same(m: Map<Seq<char>, Seq<char>>, name: Seq<char>, version: String)
    ensures
        add_all_map(
            m,
            seq![name, name],
            seq![Ok::<String, RegistryError>(version), Ok(version)],
        ) == add_all_map(m, seq![name], seq![Ok::<String, RegistryError>(version)]),
        add_all_map(m, seq![name], seq![Ok::<String, RegistryError>(version)]).contains_key(name),
        add_all_map(m, seq![name], seq![Ok::<String, RegistryError>(version)])[name] == version@,
        add_all_lines(seq![name, name], seq![Ok::<String, RegistryError>(version), Ok(version)])
            == added_line(name, version@) + added_line(name, version@),
{
    let okv: Result<String, RegistryError> = Ok(version);
    let names2: Seq<Seq<char>> = seq![name, name];
    let rs2: Seq<Result<String, RegistryError>> = seq![okv, okv];
    let names1: Seq<Seq<char>> = seq![name];
    let rs1: Seq<Result<String, RegistryError>> = seq![okv];
    let m1 = m.insert(name, version@);
    assert(names2.first() == name);
    assert(rs2.first() == okv);
    assert(names2.drop_first() =~= names1);
    assert(rs2.drop_first() =~= rs1);
    assert(names1.first() == name);
    assert(rs1.first() == okv);
    assert(names1.drop_first() =~= Seq::<Seq<char>>::empty());
    assert(rs1.drop_first() =~= Seq::<Result<String, RegistryError>>::empty());
    assert(add_step_map(m, name, okv) == m1);
    assert(add_all_map(m1, Seq::empty(), Seq::empty()) == m1);
    assert(add_all_map(m, names1, rs1) == m1);
    assert(add_all_map(m1.insert(name, version@), Seq::empty(), Seq::empty()) == m1.insert(
        name,
        version@,
    ));
    assert(add_all_map(m1, names1, rs1) == m1.insert(name, version@));
    assert(add_all_map(m, names2, rs2) == add_all_map(m1, names1, rs1));
    assert(m1.insert(name, version@) =~= m1);
    assert(add_line(name, okv) == added_line(name, version@));
    assert(add_all_lines(Seq::empty(), Seq::empty()) == Seq::<char>::empty());
    assert(add_all_lines(names1, rs1) == added_line(name, version@) + Seq::<char>::empty());
    assert(added_line(name, version@) + Seq::<char>::empty() =~= added_line(name, version@));
    assert(add_all_lines(names2, rs2) == added_line(name, version@) + add_all_lines(names1, rs1));
}

} // verus!
