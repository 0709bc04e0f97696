use hq::cli::Cli;
use hq::element::Element;
use hq::exec::ExecState;
use hq::pipeline::{Action, Pass, Pipeline, Selector};

#[test]
fn default_output_without_filter_is_on() {
    let mut pass = Pass::new();
    let mut sel = Selector::new("a[href]");
    sel.rewrite_attribute("href", "^http:", "https:").unwrap();
    pass.on(sel);
    assert!(pass.default_output());
    let state = pass.build();
    assert!(state.is_enabled());
}

#[test]
fn default_output_with_filter_is_off() {
    let mut pass = Pass::new();
    pass.filter("ul.menu");
    assert!(!pass.default_output());
    let state = pass.build();
    assert!(!state.is_enabled());
}

#[test]
fn filter_anywhere_in_any_selector_suppresses_by_default() {
    let mut pass = Pass::new();
    let mut sel = Selector::new("a");
    sel.set_inner_content("x");
    pass.on(sel);
    let mut sel2 = Selector::new("ul");
    sel2.filter();
    pass.on(sel2);
    assert!(!pass.default_output());
}

#[test]
fn nested_filters_return_to_base_depth() {
    let mut pass = Pass::new();
    pass.filter("div.f");
    let mut state = pass.build();
    assert_eq!(state.output_enabled.len(), 1);
    let sel = &pass.selectors[0];

    let mut outer = Element::new("div");
    let mut inner = Element::new("div");
    sel.enter_all(&mut outer, &mut state).unwrap();
    assert_eq!(state.output_enabled.len(), 2);
    assert!(state.is_enabled());
    sel.enter_all(&mut inner, &mut state).unwrap();
    assert_eq!(state.output_enabled.len(), 3);
    assert!(state.is_enabled());
    sel.leave_all("div", &mut state);
    assert_eq!(state.output_enabled.len(), 2);
    assert!(state.is_enabled());
    sel.leave_all("div", &mut state);
    assert_eq!(state.output_enabled.len(), 1);
    assert!(!state.is_enabled());
}

#[test]
fn leave_on_empty_stack_stays_empty_and_reads_enabled() {
    let mut state = hq::pipeline::PassState { output_enabled: Vec::new() };
    Action::Filter.leave("div", &mut state);
    assert_eq!(state.output_enabled.len(), 0);
    assert!(state.is_enabled());
}

#[test]
fn handle_chunk_appends_only_when_enabled() {
    let mut on_pass = Pass::new();
    let mut sel = Selector::new("a");
    sel.set_inner_content("x");
    on_pass.on(sel);
    let enabled = on_pass.build();

    let mut off_pass = Pass::new();
    off_pass.filter("ul");
    let disabled = off_pass.build();

    let mut out = ExecState::new();
    assert!(enabled.handle_chunk(b"abc", &mut out));
    assert!(!disabled.handle_chunk(b"XYZ", &mut out));
    assert!(enabled.handle_chunk(b"def", &mut out));
    assert_eq!(out.into_output(), b"abcdef".to_vec());
}

#[test]
fn passes_chain_in_reverse_declaration_order() {
    let mut pipeline = Pipeline::new();
    let mut a = Pass::new();
    a.filter("ul.menu");
    pipeline.add_pass(a);
    let mut b = Pass::new();
    let mut sel = Selector::new("a[href]");
    sel.rewrite_attribute("href", "^http:", "https:").unwrap();
    b.on(sel);
    pipeline.add_pass(b);

    assert_eq!(pipeline.passes.len(), 2);
    assert_eq!(pipeline.passes[0].idx, 0);
    assert_eq!(pipeline.passes[1].idx, 1);
    // raw input enters at the last-declared pass
    assert_eq!(pipeline.entry_pass(), Some(1));
    // whose visible output feeds the pass declared before it
    assert_eq!(pipeline.forward_target(1), Some(0));
    // and the first-declared pass writes the final output
    assert_eq!(pipeline.forward_target(0), None);

    let states = pipeline.build();
    assert_eq!(states.len(), 2);
    assert!(!states[0].is_enabled());
    assert!(states[1].is_enabled());
}

#[test]
fn exec_state_collects_writes_in_order() {
    let mut out = ExecState::new();
    out.write(b"one");
    out.write(b"");
    out.write(b"two");
    assert_eq!(out.into_output(), b"onetwo".to_vec());
}

#[test]
fn cli_holds_the_described_flags() {
    let cli = Cli {
        filters: vec!["ul.menu".to_string()],
        actions: vec!["rewrite".to_string(), "inner".to_string()],
    };
    assert_eq!(cli.filters.len(), 1);
    assert_eq!(cli.actions.len(), 2);
}
