//! Decoding of the startup option the server needs: the dictionary
//! location, whose leading `~/` names the invoking user's home directory.

use vstd::prelude::*;
use crate::unicode::{str_chars, chars_to_string};

verus! {

/// `path` with a leading `~/` expanded against `home`: the home
/// directory, a path separator, and the rest; any other path unchanged.
pub open spec fn expanded_location(path: Seq<char>, home: Seq<char>) -> Seq<char> {
    if path.len() >= 2 && path[0] == '~' && path[1] == '/' {
        home + "/"@ + path.skip(2)
    } else {
        path
    }
}

/// Expands a leading `~/` in `path` against `home`.
pub fn expand_tilde(path: &str, home: &str) -> (r: String)
    ensures
        r@ == expanded_location(path@, home@),
{
    let pc = str_chars(path);
    if pc.len() >= 2 && pc[0] == '~' && pc[1] == '/' {
        let mut out = str_chars(home);
        out.push('/');
        proof {
            reveal_strlit("/");
            assert(out@ =~= home@ + "/"@);
        }
        let mut j: usize = 2;
        while j < pc.len()
            invariant
                2 <= j <= pc@.len(),
                pc@ == path@,
                out@ == home@ + "/"@ + pc@.subrange(2, j as int),
            decreases pc@.len() - j,
        {
            out.push(pc[j]);
            proof {
                assert(pc@.subrange(2, j + 1 as int) =~= pc@.subrange(2, j as int).push(
                    pc@[j as int],
                ));
                assert(home@ + "/"@ + pc@.subrange(2, j + 1 as int) =~= (home@ + "/"@
                    + pc@.subrange(2, j as int)).push(pc@[j as int]));
            }
            j = j + 1;
        }
        proof {
            assert(pc@.subrange(2, pc@.len() as int) =~= pc@.skip(2));
        }
        chars_to_string(&out)
    } else {
        path.to_owned()
    }
}

} // verus!
