//! Finding the API's local-agent token.
//!
//! The API writes one at startup into the directory it already shares with this
//! unit's host-side agents. A process that can read it is, by that fact,
//! running as the account that owns the deployment.
//!
//! Every lookup failure is silent. A dashboard that cannot find a token draws
//! the degraded pane it has always drawn.

use vstd::prelude::*;

use crate::config::{clean_text, join_path, path_in, set_text};
use crate::text::{add_text, no_texts, opt_view, texts};

verus! {

/// How far up from the binary a state directory is looked for. Bounded: an
/// unbounded walk would find a stranger's on the way.
pub const MAX_PARENTS: usize = 5;

/// The token file in the state directory of a checkout.
pub open spec fn beside(dir: Seq<char>) -> Seq<char> {
    path_in(path_in(dir, ".agent-state"@), "local-api-token"@)
}

/// The token file beside each of some directories.
pub open spec fn all_beside(dirs: Seq<Seq<char>>) -> Seq<Seq<char>> {
    Seq::new(dirs.len(), |i: int| beside(dirs[i]))
}

/// Where the token is looked for, in order.
///
/// First the path in `CLASSG_LOCAL_TOKEN`, then the directory in
/// `CLASSG_DEPLOY_STATE`, then beside each directory that holds the binary,
/// from its own up, then under the home directory. A variable of white space is
/// not set.
pub open spec fn places(
    explicit: Option<Seq<char>>,
    state_dir: Option<Seq<char>>,
    parents: Seq<Seq<char>>,
    home: Option<Seq<char>>,
) -> Seq<Seq<char>> {
    let none = Seq::<Seq<char>>::empty();
    let a = match set_text(explicit) {
        Some(path) => none.push(path),
        None => none,
    };
    let b = match set_text(state_dir) {
        Some(dir) => a.push(path_in(dir, "local-api-token"@)),
        None => a,
    };
    let c = b + all_beside(
        if parents.len() > MAX_PARENTS {
            parents.take(MAX_PARENTS as int)
        } else {
            parents
        },
    );
    match home {
        Some(dir) => c.push(path_in(dir, ".local/state/classg/local-api-token"@)),
        None => c,
    }
}

pub fn candidates(
    explicit: &Option<String>,
    state_dir: &Option<String>,
    parents: &Vec<String>,
    home: &Option<String>,
) -> (r: Vec<String>)
    ensures
        texts(r@) == places(
            opt_view(*explicit),
            opt_view(*state_dir),
            texts(parents@),
            opt_view(*home),
        ),
{
    let mut out = no_texts();
    if let Some(path) = clean_text(explicit) {
        add_text(&mut out, path.as_str());
    }
    if let Some(dir) = clean_text(state_dir) {
        add_text(&mut out, join_path(dir.as_str(), "local-api-token").as_str());
    }
    let ghost before = texts(out@);
    let ghost dirs = texts(parents@);
    let most: usize = if parents.len() > MAX_PARENTS {
        MAX_PARENTS
    } else {
        parents.len()
    };
    let mut i: usize = 0;
    assert(before + all_beside(dirs.take(0)) == before);
    while i < most
        invariant
            i <= most <= parents@.len(),
            dirs == texts(parents@),
            texts(out@) == before + all_beside(dirs.take(i as int)),
        decreases most - i,
    {
        let state = join_path(parents[i].as_str(), ".agent-state");
        assert(dirs[i as int] == parents@[i as int]@);
        add_text(&mut out, join_path(state.as_str(), "local-api-token").as_str());
        i = i + 1;
        assert(before + all_beside(dirs.take(i as int)) == (before + all_beside(
            dirs.take(i - 1),
        )).push(beside(dirs[i - 1])));
    }
    assert(parents@.len() <= MAX_PARENTS ==> dirs.take(most as int) == dirs);
    if let Some(dir) = home {
        add_text(
            &mut out,
            join_path(dir.as_str(), ".local/state/classg/local-api-token").as_str(),
        );
    }
    out
}

/// The token in what was read of a candidate: its contents without the white
/// space around them, unless nothing is left.
pub open spec fn token_in(contents: Option<Seq<char>>) -> Option<Seq<char>> {
    set_text(contents)
}

/// The first of the candidates that holds a token.
pub open spec fn first_token(contents: Seq<Option<Seq<char>>>) -> Option<Seq<char>>
    decreases contents.len(),
{
    if contents.len() == 0 {
        None
    } else if token_in(contents[0]) is Some {
        token_in(contents[0])
    } else {
        first_token(contents.drop_first())
    }
}

pub open spec fn opt_views(v: Seq<Option<String>>) -> Seq<Option<Seq<char>>> {
    Seq::new(v.len(), |i: int| opt_view(v[i]))
}

/// The token, from what was read of each candidate in order.
pub fn discover(contents: &Vec<Option<String>>) -> (r: Option<String>)
    ensures
        opt_view(r) == first_token(opt_views(contents@)),
{
    let ghost all = opt_views(contents@);
    let mut i: usize = 0;
    assert(all.skip(0) == all);
    while i < contents.len()
        invariant
            i <= contents@.len(),
            all == opt_views(contents@),
            first_token(all) == first_token(all.skip(i as int)),
        decreases contents@.len() - i,
    {
        assert(all.skip(i as int)[0] == all[i as int]);
        assert(all.skip(i as int).drop_first() == all.skip(i + 1));
        let token = clean_text(&contents[i]);
        if token.is_some() {
            return token;
        }
        i = i + 1;
    }
    None
}

/// The token is that of the first file that holds one: an earlier file that is
/// missing or blank does not stand in the way, and one that holds something is
/// never passed over.
pub proof fn first_file_that_holds_a_token_wins(contents: Seq<Option<Seq<char>>>)
    ensures
        first_token(contents) is None <==> forall|i: int|
            0 <= i < contents.len() ==> set_text(#[trigger] contents[i]) is None,
        first_token(contents) matches Some(t) ==> exists|k: int|
            0 <= k < contents.len() && set_text(#[trigger] contents[k]) == Some(t) && forall|j: int|
                0 <= j < k ==> set_text(#[trigger] contents[j]) is None,
    decreases contents.len(),
{
    if contents.len() > 0 {
        if set_text(contents[0]) is Some {
            assert(set_text(contents[0]) == first_token(contents));
        } else {
            let rest = contents.drop_first();
            first_file_that_holds_a_token_wins(rest);
            assert(forall|i: int| 0 <= i < rest.len() ==> #[trigger] rest[i] == contents[i + 1]);
            if let Some(t) = first_token(rest) {
                let k = choose|k: int|
                    0 <= k < rest.len() && set_text(#[trigger] rest[k]) == Some(t) && forall|j: int|
                        0 <= j < k ==> set_text(#[trigger] rest[j]) is None;
                assert(set_text(contents[k + 1]) == Some(t));
                assert forall|j: int| 0 <= j < k + 1 implies set_text(
                    #[trigger] contents[j],
                ) is None by {
                    if j > 0 {
                        assert(contents[j] == rest[j - 1]);
                    }
                }
            } else {
                assert forall|i: int| 0 <= i < contents.len() implies set_text(
                    #[trigger] contents[i],
                ) is None by {
                    if i > 0 {
                        assert(contents[i] == rest[i - 1]);
                    }
                }
            }
        }
    }
}

/// A path that was named comes before all others, the state directory next,
/// then the directories upwards and at most five of them, and home last.
pub proof fn named_path_comes_first(
    explicit: Option<Seq<char>>,
    state_dir: Option<Seq<char>>,
    parents: Seq<Seq<char>>,
    home: Option<Seq<char>>,
)
    ensures
        ({
            let all = places(explicit, state_dir, parents, home);
            let named = if set_text(explicit) is Some {
                1int
            } else {
                0
            };
            let state = if set_text(state_dir) is Some {
                1int
            } else {
                0
            };
            let up = if parents.len() > 5 {
                5int
            } else {
                parents.len() as int
            };
            &&& set_text(explicit) matches Some(path) ==> all[0] == path
            &&& set_text(state_dir) matches Some(dir) ==> all[named] == path_in(
                dir,
                "local-api-token"@,
            )
            &&& forall|i: int|
                0 <= i < up ==> #[trigger] all[named + state + i] == path_in(
                    path_in(parents[i], ".agent-state"@),
                    "local-api-token"@,
                )
            &&& home matches Some(dir) ==> all.last() == path_in(
                dir,
                ".local/state/classg/local-api-token"@,
            )
            &&& all.len() == named + state + up + (if home is Some {
                1int
            } else {
                0
            })
        }),
{
}

} // verus!
