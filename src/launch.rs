//! What the server starts for a request: the program, its arguments in
//! order, and its environment, the server's own with the request's pairs
//! applied over it in order.

use vstd::prelude::*;
use crate::protocol::{CommandRequest, pairs_view, strings_view};

verus! {

/// `base` with each pair of `pairs` set in turn, so that of two pairs with
/// one key the later wins.
pub open spec fn overlay(
    base: Map<Seq<char>, Seq<char>>,
    pairs: Seq<(Seq<char>, Seq<char>)>,
) -> Map<Seq<char>, Seq<char>>
    decreases pairs.len(),
{
    if pairs.len() == 0 {
        base
    } else {
        overlay(base, pairs.drop_last()).insert(pairs.last().0, pairs.last().1)
    }
}

/// The environment that a list of pairs sets, read in order.
pub open spec fn env_of(pairs: Seq<(Seq<char>, Seq<char>)>) -> Map<Seq<char>, Seq<char>> {
    overlay(Map::empty(), pairs)
}

/// `r` lists the environment `m`: each variable once, with its value.
pub open spec fn lists(r: Seq<(Seq<char>, Seq<char>)>, m: Map<Seq<char>, Seq<char>>) -> bool {
    &&& forall|i: int, j: int| 0 <= i < j < r.len() ==> r[i].0 != r[j].0
    &&& forall|i: int| 0 <= i < r.len() ==> m.contains_key(#[trigger] r[i].0) && m[r[i].0] == r[i].1
    &&& forall|k: Seq<char>| #[trigger] m.contains_key(k) ==> exists|i: int| 0 <= i < r.len() && r[i].0 == k
}

/// Sets `key` to `value` in the listed environment `env`.
fn set_var(env: &mut Vec<(String, String)>, key: &String, value: &String)
    ensures
        forall|m: Map<Seq<char>, Seq<char>>| lists(pairs_view(old(env)@), m) ==> lists(
            pairs_view(final(env)@),
            #[trigger] m.insert(key@, value@),
        ),
{
    let mut j: usize = 0;
    while j < env.len()
        invariant
            0 <= j <= env.len(),
            env@ == old(env)@,
            forall|i: int| 0 <= i < j ==> env@[i].0@ != key@,
        decreases env.len() - j,
    {
        if env[j].0 == *key {
            let ghost before = pairs_view(env@);
            env.set(j, (key.clone(), value.clone()));
            proof {
                assert(before[j as int].0 == key@);
                assert(pairs_view(env@)[j as int] == (key@, value@));
                assert forall|m: Map<Seq<char>, Seq<char>>| lists(before, m) implies lists(
                    pairs_view(env@),
                    #[trigger] m.insert(key@, value@),
                ) by {
                    let after = pairs_view(env@);
                    let m2 = m.insert(key@, value@);
                    assert forall|i: int| 0 <= i < after.len() implies m2.contains_key(
                        #[trigger] after[i].0,
                    ) && m2[after[i].0] == after[i].1 by {
                        if i != j {
                            assert(after[i] == before[i]);
                            assert(before[i].0 != before[j as int].0);
                        }
                    }
                    assert forall|k: Seq<char>| #[trigger] m2.contains_key(k) implies exists|i: int|
                        0 <= i < after.len() && after[i].0 == k by {
                        if k == key@ {
                            assert(after[j as int].0 == k);
                        } else {
                            let i = choose|i: int| 0 <= i < before.len() && before[i].0 == k;
                            assert(after[i].0 == k);
                        }
                    }
                    assert forall|a: int, b: int| 0 <= a < b < after.len() implies after[a].0
                        != after[b].0 by {
                        if a != j && b != j {
                            assert(after[a] == before[a] && after[b] == before[b]);
                        } else if a == j {
                            assert(after[b] == before[b]);
                        } else {
                            assert(after[a] == before[a]);
                        }
                    }
                }
            }
            return;
        }
        j = j + 1;
    }
    let ghost before = pairs_view(env@);
    let ghost raw = env@;
    env.push((key.clone(), value.clone()));
    proof {
        assert forall|i: int| 0 <= i < before.len() implies before[i].0 != key@ by {
            assert(before[i] == (raw[i].0@, raw[i].1@));
        }
        assert(pairs_view(env@)[before.len() as int] == (key@, value@));
        assert forall|m: Map<Seq<char>, Seq<char>>| lists(before, m) implies lists(
            pairs_view(env@),
            #[trigger] m.insert(key@, value@),
        ) by {
            let after = pairs_view(env@);
            let m2 = m.insert(key@, value@);
            let n = before.len() as int;
            assert(after.len() == n + 1);
            assert forall|i: int| 0 <= i < after.len() implies m2.contains_key(
                #[trigger] after[i].0,
            ) && m2[after[i].0] == after[i].1 by {
                if i < n {
                    assert(after[i] == before[i]);
                }
            }
            assert forall|k: Seq<char>| #[trigger] m2.contains_key(k) implies exists|i: int|
                0 <= i < after.len() && after[i].0 == k by {
                if k == key@ {
                    assert(after[n].0 == k);
                } else {
                    let i = choose|i: int| 0 <= i < before.len() && before[i].0 == k;
                    assert(after[i].0 == k);
                }
            }
            assert forall|a: int, b: int| 0 <= a < b < after.len() implies after[a].0
                != after[b].0 by {
                assert(after[a] == before[a]);
                if b < n {
                    assert(after[b] == before[b]);
                }
            }
        }
    }
}

/// Applies `pairs` in order over the listed environment `env`.
fn apply_vars(env: &mut Vec<(String, String)>, pairs: &Vec<(String, String)>)
    ensures
        forall|m: Map<Seq<char>, Seq<char>>| lists(pairs_view(old(env)@), m) ==> lists(
            pairs_view(final(env)@),
            #[trigger] overlay(m, pairs_view(pairs@)),
        ),
{
    let ghost start = pairs_view(env@);
    let mut i: usize = 0;
    while i < pairs.len()
        invariant
            0 <= i <= pairs.len(),
            forall|m: Map<Seq<char>, Seq<char>>| lists(start, m) ==> lists(
                pairs_view(env@),
                #[trigger] overlay(m, pairs_view(pairs@).subrange(0, i as int)),
            ),
        decreases pairs.len() - i,
    {
        let ghost sub = pairs_view(pairs@).subrange(0, i + 1);
        assert(sub.drop_last() =~= pairs_view(pairs@).subrange(0, i as int));
        let ghost mid = pairs_view(env@);
        set_var(env, &pairs[i].0, &pairs[i].1);
        proof {
            assert forall|m: Map<Seq<char>, Seq<char>>| lists(start, m) implies lists(
                pairs_view(env@),
                #[trigger] overlay(m, sub),
            ) by {
                let prior = overlay(m, pairs_view(pairs@).subrange(0, i as int));
                assert(lists(mid, prior));
                assert(overlay(m, sub) == prior.insert(pairs@[i as int].0@, pairs@[i as int].1@));
            }
        }
        i = i + 1;
    }
    proof {
        assert(pairs_view(pairs@).subrange(0, pairs.len() as int) =~= pairs_view(pairs@));
    }
}

/// The environment of the child: `inherited` read in order, with
/// `overrides` applied over it in order. Each variable is listed once.
pub fn child_environment(
    inherited: &Vec<(String, String)>,
    overrides: &Vec<(String, String)>,
) -> (r: Vec<(String, String)>)
    ensures
        lists(pairs_view(r@), overlay(env_of(pairs_view(inherited@)), pairs_view(overrides@))),
{
    let mut env: Vec<(String, String)> = Vec::new();
    proof {
        let e: Map<Seq<char>, Seq<char>> = Map::empty();
        assert(lists(pairs_view(env@), e));
    }
    apply_vars(&mut env, inherited);
    apply_vars(&mut env, overrides);
    env
}

/// What the server starts: the program, its arguments, and its whole
/// environment, each variable once.
#[derive(Debug)]
pub struct LaunchPlan {
    pub program: String,
    pub args: Vec<String>,
    pub env: Vec<(String, String)>,
}

fn copy_strings(v: &Vec<String>) -> (r: Vec<String>)
    ensures
        strings_view(r@) == strings_view(v@),
{
    let mut out: Vec<String> = Vec::new();
    let mut i: usize = 0;
    while i < v.len()
        invariant
            0 <= i <= v.len(),
            strings_view(out@) == strings_view(v@).subrange(0, i as int),
        decreases v.len() - i,
    {
        let ghost prev = out@;
        let c = v[i].clone();
        out.push(c);
        proof {
            assert(out@ == prev.push(c));
            assert(strings_view(out@) =~= strings_view(prev).push(c@));
            assert(strings_view(out@) =~= strings_view(v@).subrange(0, i + 1));
        }
        i = i + 1;
    }
    proof {
        assert(strings_view(v@).subrange(0, v.len() as int) =~= strings_view(v@));
    }
    out
}

/// The launch for `req` on a server whose own environment is `inherited`:
/// exactly the requested program and arguments, in order, and the inherited
/// environment with the requested pairs applied over it in order.
pub fn plan_launch(req: &CommandRequest, inherited: &Vec<(String, String)>) -> (r: LaunchPlan)
    ensures
        r.program@ == req.program@,
        strings_view(r.args@) == (match req.args_view() {
            Some(a) => a,
            None => Seq::<Seq<char>>::empty(),
        }),
        lists(
            pairs_view(r.env@),
            overlay(
                env_of(pairs_view(inherited@)),
                match req.env_view() {
                    Some(e) => e,
                    None => Seq::<(Seq<char>, Seq<char>)>::empty(),
                },
            ),
        ),
{
    let args = match &req.args {
        Some(a) => copy_strings(a),
        None => {
            let v: Vec<String> = Vec::new();
            proof {
                assert(strings_view(v@) =~= Seq::<Seq<char>>::empty());
            }
            v
        },
    };
    let env = match &req.env {
        Some(e) => child_environment(inherited, e),
        None => {
            let none: Vec<(String, String)> = Vec::new();
            proof {
                assert(pairs_view(none@) =~= Seq::<(Seq<char>, Seq<char>)>::empty());
            }
            child_environment(inherited, &none)
        },
    };
    LaunchPlan { program: req.program.clone(), args, env }
}

} // verus!
