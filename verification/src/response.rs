//! The single static HTTP response body, rendered from the boot context.

use vstd::prelude::*;

verus! {

/// Immutable record computed once at startup and captured by the request
/// handler; the response depends on nothing else.
pub struct BootContext {
    pub running_in_cloud: bool,
    pub build_time: String,
}

pub open spec fn bool_text(b: bool) -> Seq<char> {
    if b {
        "true"@
    } else {
        "false"@
    }
}

/// The exact response body: a JSON object with the two boot context fields
/// as string-valued entries.
pub open spec fn response_body_spec(running_in_cloud: bool, build_time: Seq<char>) -> Seq<char> {
    "{\"running_in_cloud\":\""@ + bool_text(running_in_cloud) + "\",\"build_time\":\""@
        + build_time + "\"}"@
}

/// Renders the one response the endpoint ever serves.
pub fn render_response(ctx: &BootContext) -> (r: String)
    ensures
        r@ == response_body_spec(ctx.running_in_cloud, ctx.build_time@),
{
    let mut out = String::from_str("{\"running_in_cloud\":\"");
    if ctx.running_in_cloud {
        out.append("true");
    } else {
        out.append("false");
    }
    out.append("\",\"build_time\":\"");
    out.append(ctx.build_time.as_str());
    out.append("\"}");
    proof {
        assert(out@ =~= response_body_spec(ctx.running_in_cloud, ctx.build_time@));
    }
    out
}

/// The endpoint is stateless and idempotent: any two renderings for the same
/// boot context are the same sequence of characters.
pub proof fn lemma_response_identical(ctx: BootContext, r1: Seq<char>, r2: Seq<char>)
    requires
        r1 == response_body_spec(ctx.running_in_cloud, ctx.build_time@),
        r2 == response_body_spec(ctx.running_in_cloud, ctx.build_time@),
    ensures
        r1 == r2,
{
}

} // verus!
