use crate::facts::{find_latest, latest, ConfigError, FsFacts, GlobEntry, Halt, Query};
use crate::paths::{
    glob_error_of, glob_pattern_error, has_wildcard, joined, path_join, sort_strings,
    starts_with_dot_slash, str_le, strip_dot_slash, views,
};
use vstd::prelude::*;

verus! {

/// The glob pattern that a wildcard member is expanded from: the member, without a
/// leading `./`, joined onto the working directory.
pub open spec fn member_pattern(cwd: Seq<char>, member: Seq<char>) -> Seq<char> {
    if starts_with_dot_slash(member) {
        joined(cwd, member.subrange(2, member.len() as int))
    } else {
        joined(cwd, member)
    }
}

/// Whether some entry among the first `n` of a glob expansion is the directory `x`.
pub open spec fn entries_yield(entries: Seq<GlobEntry>, n: int, x: Seq<char>) -> bool {
    exists|k: int| 0 <= k < n && (#[trigger] entries[k]).1 && entries[k].0@ == x
}

/// Whether `x` is one of the directories that member declaration `member` stands for:
/// a directory that its glob matches, or the literal path itself.
pub open spec fn member_yields(facts: FsFacts, cwd: Seq<char>, member: Seq<char>, x: Seq<char>) -> bool {
    if member.contains('*') {
        match latest(facts.globs@, member_pattern(cwd, member)) {
            Some(Ok(entries)) => entries_yield(entries@, entries@.len() as int, x),
            _ => false,
        }
    } else {
        x == joined(cwd, member)
    }
}

/// Whether every wildcard member among the first `n` has valid syntax and a successful
/// expansion among the facts.
pub open spec fn globs_ok(facts: FsFacts, cwd: Seq<char>, members: Seq<String>, n: int) -> bool {
    forall|j: int|
        0 <= j < n && (#[trigger] members[j])@.contains('*') ==> glob_error_of(
            member_pattern(cwd, members[j]@),
        ) is None && latest(facts.globs@, member_pattern(cwd, members[j]@)) matches Some(Ok(_))
}

/// Whether one of the first `n` members stands for `x`.
pub open spec fn members_yield(
    facts: FsFacts,
    cwd: Seq<char>,
    members: Seq<String>,
    n: int,
    x: Seq<char>,
) -> bool {
    exists|j: int| 0 <= j < n && member_yields(facts, cwd, (#[trigger] members[j])@, x)
}

proof fn lemma_views_push(v: Seq<String>, s: String)
    ensures
        views(v.push(s)) == views(v).push(s@),
        forall|x: Seq<char>| views(v.push(s)).contains(x) <==> (views(v).contains(x) || x == s@),
{
    assert(views(v.push(s)) =~= views(v).push(s@));
    assert forall|x: Seq<char>| views(v.push(s)).contains(x) <==> (views(v).contains(x) || x == s@) by {
        if views(v.push(s)).contains(x) {
            let j = choose|j: int| 0 <= j < views(v.push(s)).len() && views(v.push(s))[j] == x;
            if j < v.len() {
                assert(views(v)[j] == x);
            }
        }
        if views(v).contains(x) {
            let j = choose|j: int| 0 <= j < views(v).len() && views(v)[j] == x;
            assert(views(v.push(s))[j] == x);
        }
        if x == s@ {
            assert(views(v.push(s))[v.len() as int] == x);
        }
    }
}

/// Adds `s` unless a string with the same contents is there already.
fn push_unique(v: &mut Vec<String>, s: String)
    requires
        views(old(v)@).no_duplicates(),
    ensures
        views(final(v)@).no_duplicates(),
        forall|x: Seq<char>|
            views(final(v)@).contains(x) <==> (views(old(v)@).contains(x) || x == s@),
{
    let mut i: usize = 0;
    while i < v.len()
        invariant
            *v == *old(v),
            views(old(v)@).no_duplicates(),
            i <= v@.len(),
            forall|j: int| 0 <= j < i ==> v@[j]@ != s@,
        decreases v@.len() - i,
    {
        if v[i] == s {
            proof {
                assert(views(v@)[i as int] == s@);
            }
            return;
        }
        i = i + 1;
    }
    let ghost before = v@;
    v.push(s);
    proof {
        lemma_views_push(before, s);
        assert(!views(before).contains(s@)) by {
            if views(before).contains(s@) {
                let j = choose|j: int| 0 <= j < views(before).len() && views(before)[j] == s@;
                assert(before[j]@ == s@);
            }
        }
    }
}

/// Expands workspace member declarations, relative to the working directory `cwd`,
/// into the sorted list of distinct member directories. A declaration with a `*` is a
/// glob pattern whose matches that are not directories are dropped; any other is taken
/// as a literal path, whose existence is checked later.
/// What expanding member declarations `members` from directory `cwd` gives: the
/// sorted, distinct directories they stand for, or the first failure.
pub open spec fn listing_result(
    facts: FsFacts,
    cwd: Seq<char>,
    members: Seq<String>,
    r: Result<Seq<String>, Halt>,
) -> bool {
        match r {
            Ok(paths) => {
                &&& globs_ok(facts, cwd, members, members.len() as int)
                &&& paths.len() > 0
                &&& views(paths).no_duplicates()
                &&& forall|i: int, j: int|
                    0 <= i < j < paths.len() ==> str_le(
                        #[trigger] paths[i]@,
                        #[trigger] paths[j]@,
                    )
                &&& forall|x: Seq<char>|
                    views(paths).contains(x) <==> members_yield(
                        facts,
                        cwd,
                        members,
                        members.len() as int,
                        x,
                    )
            },
            Err(Halt::Failed(ConfigError::NoMatchingMembers)) => globs_ok(
                facts,
                cwd,
                members,
                members.len() as int,
            ) && forall|x: Seq<char>|
                !members_yield(facts, cwd, members, members.len() as int, x),
            Err(Halt::Failed(ConfigError::InvalidGlob(m, e))) => exists|j: int|
                0 <= j < members.len() && globs_ok(facts, cwd, members, j) && (
                #[trigger] members[j])@ == m@ && m@.contains('*') && glob_error_of(
                    member_pattern(cwd, m@),
                ) == Some(e@),
            Err(Halt::Failed(ConfigError::GlobEntry(e))) => exists|j: int|
                0 <= j < members.len() && globs_ok(facts, cwd, members, j) && (
                #[trigger] members[j])@.contains('*') && glob_error_of(
                    member_pattern(cwd, members[j]@),
                ) is None && latest(
                    facts.globs@,
                    member_pattern(cwd, members[j]@),
                ) == Some(Err::<Vec<GlobEntry>, String>(e)),
            Err(Halt::Need(Query::Glob(p))) => exists|j: int|
                0 <= j < members.len() && globs_ok(facts, cwd, members, j) && (
                #[trigger] members[j])@.contains('*') && glob_error_of(
                    member_pattern(cwd, members[j]@),
                ) is None && p@
                    == member_pattern(cwd, members[j]@) && latest(facts.globs@, p@) is None,
            Err(_) => false,
        }
}

pub fn find_workspace_members(members: &Vec<String>, cwd: &String, facts: &FsFacts) -> (r: Result<
    Vec<String>,
    Halt,
>)
    ensures
        listing_result(
            *facts,
            cwd@,
            members@,
            match r {
                Ok(p) => Ok(p@),
                Err(e) => Err(e),
            },
        ),
{
    let mut found: Vec<String> = Vec::new();
    let mut i: usize = 0;
    while i < members.len()
        invariant
            i <= members@.len(),
            globs_ok(*facts, cwd@, members@, i as int),
            views(found@).no_duplicates(),
            forall|x: Seq<char>|
                views(found@).contains(x) <==> members_yield(*facts, cwd@, members@, i as int, x),
        decreases members@.len() - i,
    {
        let member = &members[i];
        let ghost before = found@;
        if has_wildcard(member.as_str()) {
            let rel = match strip_dot_slash(member.as_str()) {
                Some(t) => t,
                None => member.clone(),
            };
            let pattern = path_join(cwd.as_str(), rel.as_str());
            proof {
                assert(pattern@ == member_pattern(cwd@, member@));
            }
            if let Some(e) = glob_pattern_error(pattern.as_str()) {
                return Err(Halt::Failed(ConfigError::InvalidGlob(member.clone(), e)));
            }
            match find_latest(&facts.globs, &pattern) {
                None => {
                    return Err(Halt::Need(Query::Glob(pattern)));
                },
                Some(k) => match &facts.globs[k].1 {
                    Err(e) => {
                        return Err(Halt::Failed(ConfigError::GlobEntry(e.clone())));
                    },
                    Ok(entries) => {
                        let mut n: usize = 0;
                        while n < entries.len()
                            invariant
                                i < members@.len(),
                                k < facts.globs@.len(),
                                facts.globs@[k as int].1 == Ok::<Vec<GlobEntry>, String>(*entries),
                                latest(facts.globs@, member_pattern(cwd@, member@)) == Some(
                                    facts.globs@[k as int].1,
                                ),
                                *member == members@[i as int],
                                member@.contains('*'),
                                n <= entries@.len(),
                                views(found@).no_duplicates(),
                                forall|x: Seq<char>|
                                    views(found@).contains(x) <==> (views(before).contains(x)
                                        || entries_yield(entries@, n as int, x)),
                            decreases entries@.len() - n,
                        {
                            let n_next = n + 1;
                            let ghost f0 = found@;
                            if entries[n].1 {
                                push_unique(&mut found, entries[n].0.clone());
                            }
                            proof {
                                assert forall|x: Seq<char>|
                                    views(found@).contains(x) <==> (views(f0).contains(x) || (
                                    entries@[n as int].1 && entries@[n as int].0@ == x)) by {}
                                assert forall|x: Seq<char>|
                                    entries_yield(entries@, n_next as int, x) <==> (entries_yield(
                                        entries@,
                                        n as int,
                                        x,
                                    ) || (entries@[n as int].1 && entries@[n as int].0@ == x)) by {
                                    if entries_yield(entries@, n_next as int, x) {
                                        let k = choose|k: int|
                                            0 <= k < n_next as int && (#[trigger] entries@[k]).1
                                                && entries@[k].0@ == x;
                                        if k < n {
                                            assert(entries_yield(entries@, n as int, x));
                                        }
                                    }
                                    if entries_yield(entries@, n as int, x) {
                                        let k = choose|k: int|
                                            0 <= k < n && (#[trigger] entries@[k]).1
                                                && entries@[k].0@ == x;
                                        assert(entries_yield(entries@, n_next as int, x));
                                    }
                                    if entries@[n as int].1 && entries@[n as int].0@ == x {
                                        assert(entries_yield(entries@, n_next as int, x));
                                    }
                                }
                                assert forall|x: Seq<char>|
                                    views(found@).contains(x) <==> (views(before).contains(x)
                                        || entries_yield(entries@, n_next as int, x)) by {
                                    assert(views(f0).contains(x) <==> (views(before).contains(x)
                                        || entries_yield(entries@, n as int, x)));
                                }
                            }
                            n = n_next;
                        }
                        proof {
                            assert forall|x: Seq<char>|
                                entries_yield(entries@, entries@.len() as int, x) <==> member_yields(
                                    *facts,
                                    cwd@,
                                    member@,
                                    x,
                                ) by {}
                            assert forall|x: Seq<char>|
                                views(found@).contains(x) <==> (views(before).contains(x)
                                    || member_yields(*facts, cwd@, member@, x)) by {
                                assert(views(found@).contains(x) <==> (views(before).contains(x)
                                    || entries_yield(entries@, n as int, x)));
                                assert(entries_yield(entries@, entries@.len() as int, x) <==> member_yields(
                                    *facts,
                                    cwd@,
                                    member@,
                                    x,
                                ));
                            }
                        }
                    },
                },
            }
        } else {
            push_unique(&mut found, path_join(cwd.as_str(), member.as_str()));
            proof {
                assert forall|x: Seq<char>|
                    views(found@).contains(x) <==> (views(before).contains(x) || member_yields(
                        *facts,
                        cwd@,
                        member@,
                        x,
                    )) by {}
            }
        }
        proof {
            assert forall|j: int|
                0 <= j < i + 1 && (#[trigger] members@[j])@.contains('*') implies glob_error_of(
                member_pattern(cwd@, members@[j]@),
            ) is None && latest(facts.globs@, member_pattern(cwd@, members@[j]@)) matches Some(
                Ok(_),
            ) by {
                if j < i {
                    assert(globs_ok(*facts, cwd@, members@, i as int));
                }
            }
            assert forall|x: Seq<char>|
                views(found@).contains(x) <==> members_yield(
                    *facts,
                    cwd@,
                    members@,
                    i + 1,
                    x,
                ) by {
                assert(views(found@).contains(x) <==> (views(before).contains(x) || member_yields(
                    *facts,
                    cwd@,
                    member@,
                    x,
                )));
                assert(views(before).contains(x) <==> members_yield(*facts, cwd@, members@, i as int, x));
                if members_yield(*facts, cwd@, members@, i + 1, x) {
                    let j = choose|j: int|
                        0 <= j < i + 1 && member_yields(*facts, cwd@, (#[trigger] members@[j])@, x);
                    if j < i {
                        assert(members_yield(*facts, cwd@, members@, i as int, x));
                    }
                }
                if members_yield(*facts, cwd@, members@, i as int, x) {
                    let j = choose|j: int|
                        0 <= j < i && member_yields(*facts, cwd@, (#[trigger] members@[j])@, x);
                    assert(members_yield(*facts, cwd@, members@, i + 1, x));
                }
                if member_yields(*facts, cwd@, members@[i as int]@, x) {
                    assert(members_yield(*facts, cwd@, members@, i + 1, x));
                }
            }
        }
        i = i + 1;
    }
    proof {
        assert(i == members@.len());
        assert forall|x: Seq<char>|
            views(found@).contains(x) <==> members_yield(
                *facts,
                cwd@,
                members@,
                members@.len() as int,
                x,
            ) by {
            assert(views(found@).contains(x) <==> members_yield(*facts, cwd@, members@, i as int, x));
        }
    }
    if found.len() == 0 {
        proof {
            assert forall|x: Seq<char>|
                !members_yield(*facts, cwd@, members@, members@.len() as int, x) by {
                if members_yield(*facts, cwd@, members@, members@.len() as int, x) {
                    assert(views(found@).contains(x));
                    assert(views(found@).len() == 0);
                }
            }
        }
        return Err(Halt::Failed(ConfigError::NoMatchingMembers));
    }
    let ghost unsorted = found@;
    sort_strings(&mut found);
    proof {
        broadcast use vstd::seq_lib::group_seq_properties;
        assert(views(found@).to_multiset() == views(unsorted).to_multiset());
        views(unsorted).lemma_multiset_has_no_duplicates();
        views(found@).lemma_multiset_has_no_duplicates_conv();
        views(found@).to_multiset_ensures();
        views(unsorted).to_multiset_ensures();
        assert forall|x: Seq<char>| views(found@).contains(x) <==> views(unsorted).contains(x) by {
            assert(views(found@).to_multiset().count(x) == views(unsorted).to_multiset().count(x));
        }
        assert(views(found@).len() == views(unsorted).len()) by {
            views(found@).to_multiset_ensures();
            views(unsorted).to_multiset_ensures();
        }
    }
    proof {
        assert forall|x: Seq<char>|
            views(found@).contains(x) <==> members_yield(
                *facts,
                cwd@,
                members@,
                members@.len() as int,
                x,
            ) by {
            assert(views(found@).contains(x) <==> views(unsorted).contains(x));
            assert(views(unsorted).contains(x) <==> members_yield(
                *facts,
                cwd@,
                members@,
                members@.len() as int,
                x,
            ));
        }
    }
    Ok(found)
}

} // verus!
