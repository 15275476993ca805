//! The front door: which server a request path belongs to.

use vstd::prelude::*;

verus! {

/// Where the game server listens.
pub const GAME_SERVER: &'static str = "127.0.0.1:8000";

/// Where the front end listens.
pub const FRONT_END: &'static str = "127.0.0.1:5173";

/// The servers behind the front door.
#[derive(Clone, Copy, Debug, PartialEq, Eq, Structural)]
pub enum Upstream {
    GameServer,
    FrontEnd,
}

/// Where a request goes, and under which path.
#[derive(Debug, PartialEq, Eq)]
pub struct Route {
    pub upstream: Upstream,
    pub path: String,
}

/// Whether `path` lies under `/api`, which is the game server's.
pub open spec fn is_api_path(path: Seq<char>) -> bool {
    path.len() >= 4 && path.subrange(0, 4) == "/api"@
}

/// The server that `path` belongs to.
pub open spec fn upstream_of(path: Seq<char>) -> Upstream {
    if is_api_path(path) {
        Upstream::GameServer
    } else {
        Upstream::FrontEnd
    }
}

/// The path that the server sees: the game server sees its paths without
/// the `/api` in front, the front end sees them as they came.
pub open spec fn path_behind(path: Seq<char>) -> Seq<char> {
    if is_api_path(path) {
        path.skip(4)
    } else {
        path
    }
}

/// Routes a request by its path.
pub fn route(path: &str) -> (route: Route)
    ensures
        route.upstream == upstream_of(path@),
        route.path@ == path_behind(path@),
{
    proof {
        reveal_strlit("/api");
    }
    let n = path.unicode_len();
    if n >= 4 && path.get_char(0) == '/' && path.get_char(1) == 'a' && path.get_char(2) == 'p'
        && path.get_char(3) == 'i' {
        assert(path@.subrange(0, 4) =~= "/api"@);
        let rest = path.substring_char(4, n);
        assert(rest@ =~= path@.skip(4));
        Route { upstream: Upstream::GameServer, path: rest.to_owned() }
    } else {
        proof {
            if path@.len() >= 4 && path@.subrange(0, 4) == "/api"@ {
                assert(path@.subrange(0, 4)[0] == '/');
                assert(path@.subrange(0, 4)[1] == 'a');
                assert(path@.subrange(0, 4)[2] == 'p');
                assert(path@.subrange(0, 4)[3] == 'i');
            }
        }
        Route { upstream: Upstream::FrontEnd, path: path.to_owned() }
    }
}

/// The address at which `upstream` listens.
pub fn address(upstream: Upstream) -> (address: &'static str)
    ensures
        address@ == (match upstream {
            Upstream::GameServer => GAME_SERVER@,
            Upstream::FrontEnd => FRONT_END@,
        }),
{
    match upstream {
        Upstream::GameServer => GAME_SERVER,
        Upstream::FrontEnd => FRONT_END,
    }
}

} // verus!
