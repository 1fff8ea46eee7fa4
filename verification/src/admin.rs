//! The administrative operations. Each one answers with a status text,
//! also where it turns the request down, and says what is to be published.

use vstd::prelude::*;
use vstd::string::StringExecFns;
use crate::admission::AdmissionController;
use crate::state::{is_preset_name, names_preset, parse_preset, HotSwapState, ResolverRecipe};
use crate::text::{contains_text, decimal, push_decimal, string_of};

verus! {

/// What the caller is to publish after an administrative operation.
#[derive(Debug)]
pub enum AdminAction {
    /// Nothing has changed.
    Nothing,
    /// A resolver built from this is to take the place of the current one.
    PublishResolver(ResolverRecipe),
    /// This controller is to take the place of the current one.
    PublishController(AdmissionController),
}

/// The answer to an administrative operation.
#[derive(Debug)]
pub struct AdminReply {
    pub status: String,
    pub action: AdminAction,
}

/// The status text for a preset that was made current.
pub open spec fn preset_set_text(name: Seq<char>) -> Seq<char> {
    "DNS resolver preset set to: "@ + name
}

/// The status text for a text that names no preset.
pub open spec fn preset_unknown_text(given: Seq<char>) -> Seq<char> {
    "Unknown resolver preset: "@ + given
        + ". Available presets: default, google, cloudflare, quad9"@
}

/// The status text for a concurrency limit that is not positive.
pub open spec fn limit_rejected_text() -> Seq<char> {
    "Concurrency limit must be greater than 0"@
}

/// The status text for a concurrency limit that was set.
pub open spec fn limit_set_text(n: nat) -> Seq<char> {
    "Concurrency limit set to "@ + decimal(n)
}

/// The status text for a cache size that is not positive.
pub open spec fn cache_rejected_text() -> Seq<char> {
    "Cache size must be greater than 0"@
}

/// The status text for a cache size that was set.
pub open spec fn cache_set_text(n: nat) -> Seq<char> {
    "Cache size set to "@ + decimal(n)
}

/// Both texts that turn a value down say that it must be greater than 0.
pub proof fn lemma_rejections_say_why()
    ensures
        contains_text(limit_rejected_text(), "must be greater than 0"@),
        contains_text(cache_rejected_text(), "must be greater than 0"@),
{
    reveal_strlit("must be greater than 0");
    reveal_strlit("Concurrency limit must be greater than 0");
    reveal_strlit("Cache size must be greater than 0");
    let needle = "must be greater than 0"@;
    assert(limit_rejected_text().subrange(18int, 18int + needle.len()) =~= needle);
    assert(cache_rejected_text().subrange(11int, 11int + needle.len()) =~= needle);
}

/// The text `prefix` followed by the decimal numeral of `n`.
fn with_number(prefix: &str, n: u64) -> (r: String)
    ensures
        r@ == prefix@ + decimal(n as nat),
{
    let mut digits: Vec<char> = Vec::new();
    push_decimal(&mut digits, n);
    assert(digits@ =~= decimal(n as nat));
    String::from_str(prefix).concat(string_of(&digits).as_str())
}

/// Makes the preset that `name` names current. A text that names no preset
/// changes nothing and is answered with a text that says so.
pub fn set_resolver_preset(state: &mut HotSwapState, name: &str) -> (reply: AdminReply)
    ensures
        final(state).limit() == old(state).limit(),
        match reply.action {
            AdminAction::PublishResolver(recipe) => {
                &&& names_preset(name@, recipe.preset)
                &&& recipe.cache_size == old(state).resolver().cache_size
                &&& final(state).resolver() == recipe
                &&& reply.status@ == preset_set_text(recipe.preset.name_text())
            },
            AdminAction::Nothing => {
                &&& !is_preset_name(name@)
                &&& final(state).resolver() == old(state).resolver()
                &&& reply.status@ == preset_unknown_text(name@)
            },
            AdminAction::PublishController(_) => false,
        },
{
    match parse_preset(name) {
        Some(preset) => {
            let recipe = state.replace_resolver_config(preset);
            let status = String::from_str("DNS resolver preset set to: ").concat(preset.name());
            AdminReply { status, action: AdminAction::PublishResolver(recipe) }
        },
        None => {
            let status = String::from_str("Unknown resolver preset: ").concat(name).concat(
                ". Available presets: default, google, cloudflare, quad9",
            );
            AdminReply { status, action: AdminAction::Nothing }
        },
    }
}

/// Makes `n` the number of lookups that may be in flight. A value that is
/// not positive changes nothing and is answered with a text that says that
/// the limit must be greater than 0.
pub fn set_concurrency_limit(state: &mut HotSwapState, n: i64) -> (reply: AdminReply)
    ensures
        final(state).resolver() == old(state).resolver(),
        match reply.action {
            AdminAction::PublishController(ctl) => {
                &&& n > 0
                &&& final(state).limit() == n
                &&& ctl.wf()
                &&& ctl.limit() == n
                &&& ctl.held() == 0
                &&& reply.status@ == limit_set_text(n as nat)
            },
            AdminAction::Nothing => {
                &&& n <= 0
                &&& final(state).limit() == old(state).limit()
                &&& reply.status@ == limit_rejected_text()
                &&& contains_text(reply.status@, "must be greater than 0"@)
            },
            AdminAction::PublishResolver(_) => false,
        },
{
    if n > 0 {
        let wanted: u64 = n as u64;
        match state.replace_concurrency_limit(wanted) {
            Ok(ctl) => {
                let status = with_number("Concurrency limit set to ", wanted);
                return AdminReply { status, action: AdminAction::PublishController(ctl) };
            },
            Err(_) => {},
        }
    }
    proof {
        lemma_rejections_say_why();
    }
    AdminReply {
        status: String::from_str("Concurrency limit must be greater than 0"),
        action: AdminAction::Nothing,
    }
}

/// Makes `n` the size of the resolver's cache. A value that is not
/// positive changes nothing and is answered with a text that says that the
/// size must be greater than 0.
pub fn set_cache_size(state: &mut HotSwapState, n: i64) -> (reply: AdminReply)
    ensures
        final(state).limit() == old(state).limit(),
        match reply.action {
            AdminAction::PublishResolver(recipe) => {
                &&& n > 0
                &&& recipe == (ResolverRecipe {
                    preset: old(state).resolver().preset,
                    cache_size: n as u64,
                })
                &&& final(state).resolver() == recipe
                &&& reply.status@ == cache_set_text(n as nat)
            },
            AdminAction::Nothing => {
                &&& n <= 0
                &&& final(state).resolver() == old(state).resolver()
                &&& reply.status@ == cache_rejected_text()
                &&& contains_text(reply.status@, "must be greater than 0"@)
            },
            AdminAction::PublishController(_) => false,
        },
{
    if n > 0 {
        let wanted: u64 = n as u64;
        match state.replace_cache_size(wanted) {
            Ok(recipe) => {
                let status = with_number("Cache size set to ", wanted);
                return AdminReply { status, action: AdminAction::PublishResolver(recipe) };
            },
            Err(_) => {},
        }
    }
    proof {
        lemma_rejections_say_why();
    }
    AdminReply {
        status: String::from_str("Cache size must be greater than 0"),
        action: AdminAction::Nothing,
    }
}

} // verus!
