use clarion::llm_provider::{LlmProvider, NoopProvider};

#[test]
fn noop_provider_implements_trait() {
    fn assert_trait<T: LlmProvider>(_: &T) {}
    let p = NoopProvider;
    assert_trait(&p);
}

#[test]
#[should_panic(expected = "NoopProvider::name called")]
fn noop_provider_panics_on_name() {
    let p = NoopProvider;
    let _ = p.name();
}
