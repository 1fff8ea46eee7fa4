use dns_batch::admin::{set_cache_size, set_concurrency_limit, set_resolver_preset, AdminAction};
use dns_batch::admission::AdmissionController;
use dns_batch::batch::Batch;
use dns_batch::outcome::Outcome;
use dns_batch::state::{HotSwapState, ResolverPreset, ResolverRecipe};

#[test]
fn setting_a_known_preset_publishes_a_resolver() {
    let mut state = HotSwapState::new(10, 32).unwrap();
    let reply = set_resolver_preset(&mut state, "google");
    let recipe = ResolverRecipe { preset: ResolverPreset::Google, cache_size: 32 };
    assert_eq!(reply.status, "DNS resolver preset set to: google");
    assert!(matches!(reply.action, AdminAction::PublishResolver(s) if s == recipe));
    assert_eq!(state.get_resolver(), recipe);
    assert_eq!(state.concurrency_limit(), 10);
}

#[test]
fn a_lookup_after_the_swap_sees_the_new_preset() {
    let mut state = HotSwapState::new(10, 32).unwrap();
    let earlier = Batch::new(vec![Some("a".to_string())], state.get_resolver());
    set_resolver_preset(&mut state, "google");
    let later = Batch::new(vec![Some("b".to_string())], state.get_resolver());
    assert_eq!(later.resolver().preset, ResolverPreset::Google);
    assert_eq!(earlier.resolver().preset, ResolverPreset::Default);
}

#[test]
fn the_status_says_the_preset_by_its_own_name() {
    let mut state = HotSwapState::new(10, 32).unwrap();
    let reply = set_resolver_preset(&mut state, " CloudFlare ");
    assert_eq!(reply.status, "DNS resolver preset set to: cloudflare");
    assert_eq!(state.get_resolver().preset, ResolverPreset::Cloudflare);
}

#[test]
fn an_unknown_preset_is_answered_in_words_and_changes_nothing() {
    let mut state = HotSwapState::new(10, 32).unwrap();
    set_resolver_preset(&mut state, "quad9");
    let reply = set_resolver_preset(&mut state, "opendns");
    assert_eq!(
        reply.status,
        "Unknown resolver preset: opendns. Available presets: default, google, cloudflare, quad9"
    );
    assert!(matches!(reply.action, AdminAction::Nothing));
    assert_eq!(
        state.get_resolver(),
        ResolverRecipe { preset: ResolverPreset::Quad9, cache_size: 32 }
    );
}

#[test]
fn setting_a_limit_publishes_a_controller() {
    let mut state = HotSwapState::new(10, 32).unwrap();
    let reply = set_concurrency_limit(&mut state, 25);
    assert_eq!(reply.status, "Concurrency limit set to 25");
    match reply.action {
        AdminAction::PublishController(ctl) => {
            assert_eq!(ctl.permits(), 25);
            assert_eq!(ctl.in_flight(), 0);
        }
        other => panic!("{:?}", other),
    }
    assert_eq!(state.concurrency_limit(), 25);
}

#[test]
fn a_limit_of_zero_is_answered_in_words_and_changes_nothing() {
    let mut state = HotSwapState::new(2, 32).unwrap();
    let reply = set_concurrency_limit(&mut state, 0);
    assert!(reply.status.contains("must be greater than 0"));
    assert_eq!(reply.status, "Concurrency limit must be greater than 0");
    assert!(matches!(reply.action, AdminAction::Nothing));
    assert_eq!(state.concurrency_limit(), 2);

    let mut ctl = AdmissionController::new(state.concurrency_limit()).unwrap();
    let mut batch = Batch::new(
        vec![Some("a".to_string()), Some("b".to_string()), Some("c".to_string())],
        state.get_resolver(),
    );
    assert!(batch.launch(&mut ctl).is_some());
    assert!(batch.launch(&mut ctl).is_some());
    assert!(batch.launch(&mut ctl).is_none());
    assert!(batch.complete(&mut ctl, 0, Outcome::Null));
    assert!(batch.launch(&mut ctl).is_some());
}

#[test]
fn a_negative_limit_is_answered_like_zero() {
    let mut state = HotSwapState::new(10, 32).unwrap();
    for n in [-1i64, -100, i64::MIN] {
        let reply = set_concurrency_limit(&mut state, n);
        assert_eq!(reply.status, "Concurrency limit must be greater than 0");
        assert!(matches!(reply.action, AdminAction::Nothing));
        assert_eq!(state.concurrency_limit(), 10);
    }
}

#[test]
fn the_largest_limit_is_written_out_in_full() {
    let mut state = HotSwapState::new(10, 32).unwrap();
    let reply = set_concurrency_limit(&mut state, i64::MAX);
    assert_eq!(reply.status, "Concurrency limit set to 9223372036854775807");
    assert_eq!(state.concurrency_limit(), i64::MAX as u64);
}

#[test]
fn setting_a_cache_size_publishes_a_resolver() {
    let mut state = HotSwapState::new(10, 32).unwrap();
    set_resolver_preset(&mut state, "cloudflare");
    let reply = set_cache_size(&mut state, 1000);
    let recipe = ResolverRecipe { preset: ResolverPreset::Cloudflare, cache_size: 1000 };
    assert_eq!(reply.status, "Cache size set to 1000");
    assert!(matches!(reply.action, AdminAction::PublishResolver(s) if s == recipe));
    assert_eq!(state.get_resolver(), recipe);
}

#[test]
fn a_cache_size_that_is_not_positive_is_answered_in_words_and_changes_nothing() {
    let mut state = HotSwapState::new(10, 32).unwrap();
    for n in [0i64, -5] {
        let reply = set_cache_size(&mut state, n);
        assert!(reply.status.contains("must be greater than 0"));
        assert_eq!(reply.status, "Cache size must be greater than 0");
        assert!(matches!(reply.action, AdminAction::Nothing));
        assert_eq!(state.get_resolver().cache_size, 32);
    }
}
