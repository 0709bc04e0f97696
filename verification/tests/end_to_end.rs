use std::borrow::Cow;
use std::cell::RefCell;
use std::rc::Rc;

use hq::element::Element;
use hq::exec::ExecState;
use hq::pipeline::{Pass, PassState, Pipeline, Selector};

type Rw = lol_html::HtmlRewriter<'static, Box<dyn FnMut(&[u8])>>;
type Stage = Rc<RefCell<Option<Rw>>>;

/// Forward a chunk the way a pass's sink does: drop it unless the pass's
/// visibility stack lets it through, then hand it to the next stage in the
/// chain, or to the output buffer if this pass is the terminal one.
fn emit(state: &Rc<RefCell<PassState>>, next: &Stage, out: &Rc<RefCell<ExecState>>, chunk: &[u8]) {
    let mut next_stage = next.borrow_mut();
    match next_stage.as_mut() {
        Some(rw) => {
            if state.borrow().is_enabled() {
                rw.write(chunk).unwrap();
            }
        }
        None => {
            state.borrow().handle_chunk(chunk, &mut out.borrow_mut());
        }
    }
}

/// Compile the pipeline against the streaming matcher and run it on `input`:
/// passes are compiled in declaration order, each wrapping the stage compiled
/// before it, so the raw input enters at the last-declared pass and the
/// first-declared pass writes the output.
fn run_pipeline(pipeline: &Pipeline, input: &[u8]) -> Result<String, String> {
    let out = Rc::new(RefCell::new(ExecState::new()));
    let mut prev: Option<Rw> = None;
    for pass in pipeline.passes.iter() {
        let state = Rc::new(RefCell::new(pass.build()));
        let next: Stage = Rc::new(RefCell::new(prev.take()));
        let mut settings = lol_html::Settings::new();
        for sel in pass.selectors.iter() {
            let sel_own = sel.clone();
            let state_h = state.clone();
            let next_h = next.clone();
            let out_h = out.clone();
            let parsed: lol_html::Selector = sel
                .selector
                .parse()
                .map_err(|e| format!("selector {:?}: {:?}", sel.selector, e))?;
            let handler = move |el: &mut lol_html::html_content::Element| -> lol_html::HandlerResult {
                let mut model = Element::new(&el.tag_name());
                let attrs: Vec<(String, String)> =
                    el.attributes().iter().map(|a| (a.name(), a.value())).collect();
                for (name, value) in attrs.iter() {
                    model.push_attr(name, value);
                }
                if let Err(e) = sel_own.enter_all(&mut model, &mut state_h.borrow_mut()) {
                    return Err(format!("{:?}", e).into());
                }
                for (name, value) in model.attrs.iter() {
                    el.set_attribute(name, value).map_err(|e| e.to_string())?;
                }
                if let Some(inner) = model.inner.as_ref() {
                    el.set_inner_content(inner, lol_html::html_content::ContentType::Html);
                }
                let sel_end = sel_own.clone();
                let state_end = state_h.clone();
                let next_end = next_h.clone();
                let out_end = out_h.clone();
                el.on_end_tag(Box::new(
                    move |end: &mut lol_html::html_content::EndTag| -> lol_html::HandlerResult {
                        // the end tag belongs to the element's span: forward it
                        // while the element's own frame is still on, then pop
                        let name = end.name();
                        let bytes = format!("</{}>", name);
                        emit(&state_end, &next_end, &out_end, bytes.as_bytes());
                        sel_end.leave_all(&name, &mut state_end.borrow_mut());
                        end.remove();
                        Ok(())
                    },
                ))?;
                Ok(())
            };
            settings = settings.append_element_content_handler((
                Cow::Owned(parsed),
                lol_html::ElementContentHandlers::default().element(handler),
            ));
        }
        let state_s = state.clone();
        let next_s = next.clone();
        let out_s = out.clone();
        let sink: Box<dyn FnMut(&[u8])> =
            Box::new(move |chunk: &[u8]| emit(&state_s, &next_s, &out_s, chunk));
        prev = Some(lol_html::HtmlRewriter::new(settings, sink));
    }
    let mut entry = prev.ok_or_else(|| "empty pipeline".to_string())?;
    entry.write(input).map_err(|e| e.to_string())?;
    drop(entry);
    let exec_state = Rc::try_unwrap(out).map_err(|_| "chain still alive".to_string())?.into_inner();
    String::from_utf8(exec_state.into_output()).map_err(|e| e.to_string())
}

#[test]
fn filter_pass_keeps_exactly_the_matched_subtree() {
    let mut pipeline = Pipeline::new();
    let mut pass = Pass::new();
    pass.filter("ul.menu");
    pipeline.add_pass(pass);
    let input = br#"<ul class="menu"><li><a href="http://x.com">x</a></li></ul><p>keep</p>"#;
    let output = run_pipeline(&pipeline, input).unwrap();
    assert_eq!(output, r#"<ul class="menu"><li><a href="http://x.com">x</a></li></ul>"#);
}

#[test]
fn nested_filter_matches_stay_balanced() {
    let mut pipeline = Pipeline::new();
    let mut pass = Pass::new();
    pass.filter("div.f");
    pipeline.add_pass(pass);
    let input = br#"<div class="f">a<div class="f">b</div>c</div>d"#;
    let output = run_pipeline(&pipeline, input).unwrap();
    assert_eq!(output, r#"<div class="f">a<div class="f">b</div>c</div>"#);
}

#[test]
fn passes_run_in_reverse_declaration_order() {
    // the last-declared pass sees the raw input first: it copies the still
    // unrewritten attribute value into the inner content, and only then does
    // the first-declared pass rewrite the attribute itself
    let mut pipeline = Pipeline::new();
    let mut a = Pass::new();
    let mut sel_a = Selector::new("a[href]");
    sel_a.rewrite_attribute("href", "^http:", "https:").unwrap();
    a.on(sel_a);
    pipeline.add_pass(a);
    let mut b = Pass::new();
    let mut sel_b = Selector::new("a");
    sel_b.set_inner_content("{{ attributes.href }}");
    b.on(sel_b);
    pipeline.add_pass(b);
    let input = br#"<a href="http://x.com">x</a>"#;
    let output = run_pipeline(&pipeline, input).unwrap();
    assert_eq!(output, r#"<a href="https://x.com">http:&#x2f;&#x2f;x.com</a>"#);
}

#[test]
fn rewrite_and_inner_content_compose_inside_a_filtered_menu() {
    let mut pipeline = Pipeline::new();
    let mut first = Pass::new();
    first.filter("ul.menu");
    pipeline.add_pass(first);
    let mut second = Pass::new();
    let mut sel = Selector::new("a[href]");
    sel.rewrite_attribute("href", "^http:", "https:").unwrap();
    second.on(sel);
    pipeline.add_pass(second);
    let input = br#"<ul class="menu"><li><a href="http://x.com">x</a></li></ul><p>keep</p>"#;
    let output = run_pipeline(&pipeline, input).unwrap();
    assert_eq!(output, r#"<ul class="menu"><li><a href="https://x.com">x</a></li></ul>"#);
}

#[test]
fn template_failure_aborts_the_run_with_no_output() {
    let mut pipeline = Pipeline::new();
    let mut pass = Pass::new();
    let mut sel = Selector::new("a");
    sel.set_inner_content("{% if %}");
    pass.on(sel);
    pipeline.add_pass(pass);
    let input = br#"<a href="http://x.com">x</a>"#;
    let r = run_pipeline(&pipeline, input);
    assert!(r.is_err());
}

#[test]
fn empty_pipeline_is_reported() {
    let pipeline = Pipeline::new();
    assert!(run_pipeline(&pipeline, b"<p>x</p>").is_err());
}
