//! The shared resolver state: which resolver is current, how many lookups
//! may be in flight, and how large the resolver's cache is to be.
//!
//! Each change replaces a whole value. A change hands back what is to be
//! published in place of the old value; lookups that began before the
//! change keep what they began with.

use vstd::prelude::*;
use crate::admission::AdmissionController;
use crate::text::{chars_of, same_chars, trim_chars, trimmed, upper_chars, upper_text};

verus! {

/// A named set of upstream name servers.
#[derive(Clone, Copy, Debug, PartialEq, Eq, Structural)]
pub enum ResolverPreset {
    Default,
    Google,
    Cloudflare,
    Quad9,
}

/// What a resolver is built from.
#[derive(Clone, Copy, Debug, PartialEq, Eq, Structural)]
pub struct ResolverRecipe {
    pub preset: ResolverPreset,
    pub cache_size: u64,
}

/// The setting that a rejected value was meant for.
#[derive(Clone, Copy, Debug, PartialEq, Eq, Structural)]
pub enum Setting {
    ConcurrencyLimit,
    CacheSize,
}

/// Why a configuration change was rejected.
#[derive(Clone, Copy, Debug, PartialEq, Eq, Structural)]
pub enum ConfigError {
    /// The value for the setting was zero.
    InvalidArgument(Setting),
}

/// The four presets, in a fixed order.
pub open spec fn all_presets() -> Seq<ResolverPreset> {
    seq![
        ResolverPreset::Default,
        ResolverPreset::Google,
        ResolverPreset::Cloudflare,
        ResolverPreset::Quad9,
    ]
}

/// Whether `s` is, but for case and the whitespace around it, the name of
/// the preset `p`.
pub open spec fn names_preset(s: Seq<char>, p: ResolverPreset) -> bool {
    upper_text(trimmed(s)) == upper_text(p.name_text())
}

/// Whether `s` names any preset.
pub open spec fn is_preset_name(s: Seq<char>) -> bool {
    exists|p: ResolverPreset| names_preset(s, p)
}

impl ResolverPreset {
    /// The name of the preset.
    pub open spec fn name_text(self) -> Seq<char> {
        match self {
            ResolverPreset::Default => seq!['d', 'e', 'f', 'a', 'u', 'l', 't'],
            ResolverPreset::Google => seq!['g', 'o', 'o', 'g', 'l', 'e'],
            ResolverPreset::Cloudflare => seq!['c', 'l', 'o', 'u', 'd', 'f', 'l', 'a', 'r', 'e'],
            ResolverPreset::Quad9 => seq!['q', 'u', 'a', 'd', '9'],
        }
    }

    /// The name of the preset.
    pub fn name(&self) -> (r: &'static str)
        ensures
            r@ == self.name_text(),
    {
        proof {
            reveal_strlit("default");
            reveal_strlit("google");
            reveal_strlit("cloudflare");
            reveal_strlit("quad9");
        }
        let r = match self {
            ResolverPreset::Default => "default",
            ResolverPreset::Google => "google",
            ResolverPreset::Cloudflare => "cloudflare",
            ResolverPreset::Quad9 => "quad9",
        };
        assert(r@ =~= self.name_text());
        r
    }

    /// The four presets, in a fixed order.
    pub fn all() -> (r: Vec<ResolverPreset>)
        ensures
            r@ == all_presets(),
    {
        let r = vec![
            ResolverPreset::Default,
            ResolverPreset::Google,
            ResolverPreset::Cloudflare,
            ResolverPreset::Quad9,
        ];
        assert(r@ =~= all_presets());
        r
    }
}

/// Every preset stands in `all_presets`.
pub proof fn lemma_all_presets_complete(p: ResolverPreset)
    ensures
        all_presets().contains(p),
{
    let i: int = match p {
        ResolverPreset::Default => 0,
        ResolverPreset::Google => 1,
        ResolverPreset::Cloudflare => 2,
        ResolverPreset::Quad9 => 3,
    };
    assert(all_presets()[i] == p);
}

/// No text names two presets.
pub proof fn lemma_preset_name_unique(s: Seq<char>, p: ResolverPreset, q: ResolverPreset)
    requires
        names_preset(s, p),
        names_preset(s, q),
    ensures
        p == q,
{
    let a = upper_text(p.name_text());
    let b = upper_text(q.name_text());
    assert(a.len() == b.len());
    assert(a[0] == b[0]);
}

/// The preset that `text` names, if it names one. Case and the whitespace
/// around the name do not count.
pub fn parse_preset(text: &str) -> (r: Option<ResolverPreset>)
    ensures
        match r {
            Some(p) => names_preset(text@, p),
            None => !is_preset_name(text@),
        },
{
    let given = chars_of(text);
    let wanted = upper_chars(&trim_chars(&given));
    let presets = ResolverPreset::all();
    let mut i: usize = 0;
    while i < presets.len()
        invariant
            i <= presets.len(),
            presets@ == all_presets(),
            wanted@ == upper_text(trimmed(text@)),
            forall|j: int| 0 <= j < i ==> !names_preset(text@, #[trigger] presets@[j]),
        decreases presets.len() - i,
    {
        let p = presets[i];
        let name = upper_chars(&chars_of(p.name()));
        if same_chars(&wanted, &name) {
            return Some(p);
        }
        i += 1;
    }
    proof {
        assert forall|p: ResolverPreset| !names_preset(text@, p) by {
            lemma_all_presets_complete(p);
        }
    }
    None
}

/// What is current: the resolver's preset, the size of its cache, and the
/// number of lookups that may be in flight.
#[derive(Debug)]
pub struct HotSwapState {
    preset: ResolverPreset,
    cache_size: u64,
    limit: u64,
}

impl HotSwapState {
    /// What the current resolver is built from.
    pub closed spec fn resolver(&self) -> ResolverRecipe {
        ResolverRecipe { preset: self.preset, cache_size: self.cache_size }
    }

    /// The number of permits of the current admission controller.
    pub closed spec fn limit(&self) -> nat {
        self.limit as nat
    }

    /// The cache size that was asked for last.
    pub open spec fn cache_size(&self) -> nat {
        self.resolver().cache_size as nat
    }

    /// Neither the limit nor the cache size is zero.
    #[verifier::type_invariant]
    pub open spec fn wf(&self) -> bool {
        self.limit() > 0 && self.cache_size() > 0
    }

    /// The state at the start: the default preset, with the given limit and
    /// cache size, neither of which may be zero.
    pub fn new(limit: u64, cache_size: u64) -> (r: Result<HotSwapState, ConfigError>)
        ensures
            match r {
                Ok(state) => {
                    &&& limit > 0 && cache_size > 0
                    &&& state.limit() == limit
                    &&& state.resolver() == (ResolverRecipe {
                        preset: ResolverPreset::Default,
                        cache_size,
                    })
                },
                Err(e) => if limit == 0 {
                    e == ConfigError::InvalidArgument(Setting::ConcurrencyLimit)
                } else {
                    cache_size == 0 && e == ConfigError::InvalidArgument(Setting::CacheSize)
                },
            },
    {
        if limit == 0 {
            Err(ConfigError::InvalidArgument(Setting::ConcurrencyLimit))
        } else if cache_size == 0 {
            Err(ConfigError::InvalidArgument(Setting::CacheSize))
        } else {
            Ok(HotSwapState { preset: ResolverPreset::Default, cache_size, limit })
        }
    }

    /// What the current resolver is built from.
    pub fn get_resolver(&self) -> (r: ResolverRecipe)
        ensures
            r == self.resolver(),
            r.cache_size > 0,
    {
        proof {
            use_type_invariant(self);
        }
        ResolverRecipe { preset: self.preset, cache_size: self.cache_size }
    }

    /// The number of permits of the current admission controller.
    pub fn concurrency_limit(&self) -> (r: u64)
        ensures
            r == self.limit(),
            r > 0,
    {
        proof {
            use_type_invariant(self);
        }
        self.limit
    }

    /// Makes `preset` current, with the cache size that was asked for last.
    /// Hands back what the new resolver is to be built from.
    pub fn replace_resolver_config(&mut self, preset: ResolverPreset) -> (r: ResolverRecipe)
        ensures
            r == (ResolverRecipe { preset, cache_size: old(self).resolver().cache_size }),
            final(self).resolver() == r,
            final(self).limit() == old(self).limit(),
    {
        proof {
            use_type_invariant(&*self);
        }
        self.preset = preset;
        ResolverRecipe { preset, cache_size: self.cache_size }
    }

    /// Makes `n` the number of lookups that may be in flight, and hands
    /// back a new controller with `n` free permits. Zero is rejected, and
    /// nothing changes.
    pub fn replace_concurrency_limit(&mut self, n: u64) -> (r: Result<
        AdmissionController,
        ConfigError,
    >)
        ensures
            final(self).resolver() == old(self).resolver(),
            match r {
                Ok(ctl) => {
                    &&& n > 0
                    &&& final(self).limit() == n
                    &&& ctl.wf()
                    &&& ctl.limit() == n
                    &&& ctl.held() == 0
                },
                Err(e) => {
                    &&& n == 0
                    &&& e == ConfigError::InvalidArgument(Setting::ConcurrencyLimit)
                    &&& final(self).limit() == old(self).limit()
                },
            },
    {
        proof {
            use_type_invariant(&*self);
        }
        match AdmissionController::new(n) {
            Some(ctl) => {
                self.limit = n;
                Ok(ctl)
            },
            None => Err(ConfigError::InvalidArgument(Setting::ConcurrencyLimit)),
        }
    }

    /// Makes `n` the cache size, and hands back what the new resolver is
    /// to be built from: the current preset with the new cache size. Zero
    /// is rejected, and nothing changes.
    pub fn replace_cache_size(&mut self, n: u64) -> (r: Result<ResolverRecipe, ConfigError>)
        ensures
            final(self).limit() == old(self).limit(),
            match r {
                Ok(recipe) => {
                    &&& n > 0
                    &&& recipe == (ResolverRecipe {
                        preset: old(self).resolver().preset,
                        cache_size: n,
                    })
                    &&& final(self).resolver() == recipe
                },
                Err(e) => {
                    &&& n == 0
                    &&& e == ConfigError::InvalidArgument(Setting::CacheSize)
                    &&& final(self).resolver() == old(self).resolver()
                },
            },
    {
        proof {
            use_type_invariant(&*self);
        }
        if n == 0 {
            Err(ConfigError::InvalidArgument(Setting::CacheSize))
        } else {
            self.cache_size = n;
            Ok(ResolverRecipe { preset: self.preset, cache_size: n })
        }
    }
}

} // verus!
