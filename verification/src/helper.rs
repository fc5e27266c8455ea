//! Where the broker daemon is met, and whether it is used.

use crate::strings;
use crate::text;
use vstd::prelude::*;

verus! {

/// The socket path: the override, else one in the runtime directory, else the system
/// default. Empty values count as missing.
pub open spec fn socket_for(helper_env: Option<Seq<char>>, xdg: Option<Seq<char>>) -> Seq<char> {
    if helper_env is Some && helper_env->0.len() > 0 {
        helper_env->0
    } else if xdg is Some && xdg->0.len() > 0 {
        xdg->0 + "/keyd-viz.sock"@
    } else {
        "/run/keyd-viz.sock"@
    }
}

/// An optional string slice with its view.
pub open spec fn opt_str(s: Option<&str>) -> Option<Seq<char>> {
    match s {
        Some(t) => Some(t@),
        None => None,
    }
}

/// The helper socket path, from the two environment variables that can set it.
pub fn resolve_socket(helper_env: Option<&str>, xdg: Option<&str>) -> (r: String)
    ensures
        r@ == socket_for(opt_str(helper_env), opt_str(xdg)),
{
    if let Some(p) = helper_env {
        if !p.is_empty() {
            return strings::copy(p);
        }
    }
    if let Some(dir) = xdg {
        if !dir.is_empty() {
            return strings::cat(dir, "/keyd-viz.sock");
        }
    }
    strings::copy("/run/keyd-viz.sock")
}

/// Where live signals come from.
#[derive(Debug, Clone, Copy, PartialEq, Eq, Structural)]
pub enum LiveSource {
    /// Synthetic ones.
    Demo,
    /// The broker daemon.
    Helper,
    /// keyd itself.
    Keyd,
}

/// Where live signals come from.
pub open spec fn source_for(demo: bool, flag: bool, env: bool, running: bool) -> LiveSource {
    if demo {
        LiveSource::Demo
    } else if flag || env || running {
        LiveSource::Helper
    } else {
        LiveSource::Keyd
    }
}

/// Choose where live signals come from: the broker where it was asked for by a flag or
/// the environment, or is running; keyd itself otherwise.
pub fn live_source(demo: bool, flag: bool, env: bool, running: bool) -> (r: LiveSource)
    ensures
        r == source_for(demo, flag, env, running),
{
    if demo {
        LiveSource::Demo
    } else if flag || env || running {
        LiveSource::Helper
    } else {
        LiveSource::Keyd
    }
}

/// The broker is used where it was asked for or is there, and else keyd itself is read; a
/// demo reads neither.
pub proof fn the_broker_is_used_where_it_can_be(demo: bool, flag: bool, env: bool, running: bool)
    ensures
        source_for(demo, flag, env, running) is Demo <==> demo,
        source_for(demo, flag, env, running) is Helper <==> !demo && (flag || env || running),
        source_for(demo, flag, env, running) is Keyd <==> !demo && !flag && !env && !running,
{
}

/// The socket is the one that was named; else the one of the user's runtime directory; else
/// that of the system. A name that is empty is none.
pub proof fn a_named_socket_is_taken(named: Option<Seq<char>>, runtime: Option<Seq<char>>)
    ensures
        named is Some && named->0.len() > 0 ==> socket_for(named, runtime) == named->0,
        named is Some && named->0.len() == 0 ==> socket_for(named, runtime) == socket_for(
            None,
            runtime,
        ),
        runtime is Some && runtime->0.len() > 0 ==> socket_for(None, runtime) == runtime->0
            + "/keyd-viz.sock"@,
        runtime is None || runtime->0.len() == 0 ==> socket_for(None, runtime)
            == "/run/keyd-viz.sock"@,
{
}

} // verus!
