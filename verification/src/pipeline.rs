//! The pipeline description and the action engine. A `Pipeline` is an
//! ordered list of `Pass`es; a `Pass` is an ordered list of `Selector`s,
//! each a structural match pattern with the `Action`s to run on every
//! element it matches; a `PassState` is the per-run visibility stack of one
//! pass. The embedding program registers each selector's pattern with the
//! structural matcher and, on every match, drives `enter_all` at the start
//! tag and `leave_all` at the end tag; every output chunk of a pass is let
//! through or dropped by that pass's `PassState`.
//!
//! Passes are chained in the reverse of their declaration order: the raw
//! input goes to the last-declared pass, each pass's visible output feeds
//! the pass declared before it, and the first-declared pass writes the
//! final output. `entry_pass` and `forward_target` state that wiring.

use vstd::prelude::*;

use crate::capability::{
    regex_found, regex_is_valid, regex_replace_all, regex_replaced, regex_valid,
    render_template_raw, rendered,
};
use crate::element::{attr_set, attr_value, lemma_attr_set_reads_back, read_attr, Element};
use crate::exec::{BuildError, ExecError, ExecState};
use crate::visibility::{stack_enabled, trues};

verus! {

/// One edit bound to a matched element.
#[derive(Debug, Clone)]
pub enum Action {
    /// Let output through while the matched element is open, under the
    /// stack discipline; a pass holding any Filter suppresses by default.
    Filter,
    /// Rewrite attribute `attr` by replacing every match of `pattern` in
    /// its value with `replacement`; an absent attribute reads as empty.
    RewriteAttribute { attr: String, pattern: String, replacement: String },
    /// Replace the element's inner content with the rendering of `template`
    /// against the element's context, as markup.
    SetInnerContent { template: String },
}

/// The per-run visibility stack of one pass. Its base frame is pushed when
/// the pass is built and holds the pass's default visibility; Filter
/// actions push and pop frames above it.
#[derive(Debug)]
pub struct PassState {
    /// The stack; the top entry decides whether output is let through.
    pub output_enabled: Vec<bool>,
}

/// A structural match pattern with the actions to run, in declaration
/// order, on every element it matches.
#[derive(Debug, Clone)]
pub struct Selector {
    /// The structural selector expression the matcher is given.
    pub selector: String,
    /// The actions, run in declaration order on enter and on leave.
    pub actions: Vec<Action>,
}

/// One stage of the pipeline: an ordered list of selectors and a position.
#[derive(Debug)]
pub struct Pass {
    /// The position of this pass in declaration order.
    pub idx: usize,
    /// The selectors of this pass.
    pub selectors: Vec<Selector>,
}

/// An ordered list of passes, built once and then compiled into a chain.
#[derive(Debug)]
pub struct Pipeline {
    /// The passes, in declaration order.
    pub passes: Vec<Pass>,
}

/// How one action's enter relates the element and the visibility stack
/// before it to the ones after it, and which result it returns.
pub open spec fn enter_step(
    action: Action,
    el0: Element,
    st0: Seq<bool>,
    el1: Element,
    st1: Seq<bool>,
    r: Result<(), ExecError>,
) -> bool {
    match action {
        Action::Filter => {
            &&& st1 == st0.push(true)
            &&& el1 == el0
            &&& r is Ok
        },
        Action::RewriteAttribute { attr, pattern, replacement } => {
            &&& st1 == st0
            &&& el1.tag == el0.tag
            &&& if regex_valid(pattern@) {
                let v0 = read_attr(el0.attrs@, attr@);
                &&& r is Ok
                &&& el1.inner == el0.inner
                &&& attr_set(el0.attrs@, attr@, regex_replaced(pattern@, v0, replacement@), el1.attrs@)
                &&& attr_value(el1.attrs@, attr@) == Some(regex_replaced(pattern@, v0, replacement@))
                &&& (!regex_found(pattern@, v0) ==> attr_value(el1.attrs@, attr@) == Some(v0))
            } else {
                &&& r == Err::<(), ExecError>(ExecError::InvalidPattern)
                &&& el1 == el0
            }
        },
        Action::SetInnerContent { template } => {
            let res = rendered(template@, el0.tag@, el0.attrs@);
            &&& st1 == st0
            &&& el1.tag == el0.tag
            &&& el1.attrs == el0.attrs
            &&& (r is Ok) == (res is Ok)
            &&& (res matches Ok(s) ==> el1.inner matches Some(t) && t@ == s)
            &&& (res is Err ==> r == Err::<(), ExecError>(ExecError::RenderFailed) && el1 == el0)
        },
    }
}

/// The composition of enter steps in declaration order: each step starts
/// from the element and stack the one before left, and the first failure
/// stops the run with its error.
pub open spec fn enter_steps(
    actions: Seq<Action>,
    el0: Element,
    st0: Seq<bool>,
    el1: Element,
    st1: Seq<bool>,
    r: Result<(), ExecError>,
) -> bool
    decreases actions.len(),
{
    if actions.len() == 0 {
        el1 == el0 && st1 == st0 && r is Ok
    } else {
        exists|elm: Element, stm: Seq<bool>, r0: Result<(), ExecError>|
            {
                &&& #[trigger] enter_step(actions[0], el0, st0, elm, stm, r0)
                &&& if r0 is Ok {
                    enter_steps(actions.drop_first(), elm, stm, el1, st1, r)
                } else {
                    el1 == elm && st1 == stm && r == r0
                }
            }
    }
}

/// Law: entering a selector's actions can only push enabled frames — no
/// action re-disables output within its own span, and nothing but a Filter
/// touches the stack at all. Whatever the actions did to the element, the
/// stack afterwards is the stack before with one `true` frame per Filter
/// action that ran.
pub proof fn lemma_enter_pushes_only_enabled(
    actions: Seq<Action>,
    el0: Element,
    st0: Seq<bool>,
    el1: Element,
    st1: Seq<bool>,
    r: Result<(), ExecError>,
)
    requires
        enter_steps(actions, el0, st0, el1, st1, r),
    ensures
        exists|n: int| 0 <= n <= actions.len() && st1 == st0 + trues(n),
    decreases actions.len(),
{
    if actions.len() == 0 {
        assert(st0 + trues(0) =~= st0);
    } else {
        let (elm, stm, r0): (Element, Seq<bool>, Result<(), ExecError>) = choose|
            elm: Element,
            stm: Seq<bool>,
            r0: Result<(), ExecError>,
        |
            {
                &&& #[trigger] enter_step(actions[0], el0, st0, elm, stm, r0)
                &&& if r0 is Ok {
                    enter_steps(actions.drop_first(), elm, stm, el1, st1, r)
                } else {
                    el1 == elm && st1 == stm && r == r0
                }
            };
        let m: int = if actions[0] is Filter {
            1
        } else {
            0
        };
        assert(stm =~= st0 + trues(m));
        if r0 is Ok {
            lemma_enter_pushes_only_enabled(actions.drop_first(), elm, stm, el1, st1, r);
            let n = choose|n: int| 0 <= n <= actions.drop_first().len() && st1 == stm + trues(n);
            assert(st1 =~= st0 + trues(m + n));
        } else {
            assert(st1 =~= st0 + trues(m));
        }
    }
}

/// How many of the actions are Filters.
pub open spec fn filter_count(actions: Seq<Action>) -> int
    decreases actions.len(),
{
    if actions.len() == 0 {
        0
    } else {
        (if actions[0] is Filter {
            1int
        } else {
            0int
        }) + filter_count(actions.drop_first())
    }
}

/// A successful enter of a selector pushes exactly one enabled frame per
/// Filter action.
pub proof fn lemma_enter_ok_stack_exact(
    actions: Seq<Action>,
    el0: Element,
    st0: Seq<bool>,
    el1: Element,
    st1: Seq<bool>,
)
    requires
        enter_steps(actions, el0, st0, el1, st1, Ok::<(), ExecError>(())),
    ensures
        st1 == st0 + trues(filter_count(actions)),
    decreases actions.len(),
{
    if actions.len() == 0 {
        assert(st0 + trues(0) =~= st0);
    } else {
        let (elm, stm, r0): (Element, Seq<bool>, Result<(), ExecError>) = choose|
            elm: Element,
            stm: Seq<bool>,
            r0: Result<(), ExecError>,
        |
            {
                &&& #[trigger] enter_step(actions[0], el0, st0, elm, stm, r0)
                &&& if r0 is Ok {
                    enter_steps(actions.drop_first(), elm, stm, el1, st1, Ok::<(), ExecError>(()))
                } else {
                    el1 == elm && st1 == stm && Ok::<(), ExecError>(()) == r0
                }
            };
        assert(r0 is Ok);
        let m: int = if actions[0] is Filter {
            1
        } else {
            0
        };
        assert(stm =~= st0 + trues(m));
        lemma_enter_ok_stack_exact(actions.drop_first(), elm, stm, el1, st1);
        lemma_filter_count_bounds(actions.drop_first());
        assert(st1 =~= st0 + trues(m + filter_count(actions.drop_first())));
    }
}

/// Leaving pops exactly the frames entering pushed: one per Filter action.
pub proof fn lemma_leave_pops_filters(actions: Seq<Action>, st0: Seq<bool>)
    ensures
        leave_seq(actions, st0 + trues(filter_count(actions))) == st0,
    decreases actions.len(),
{
    if actions.len() == 0 {
        assert(st0 + trues(0) =~= st0);
    } else {
        let k = filter_count(actions);
        let rest = actions.drop_first();
        if actions[0] is Filter {
            assert(k >= 1) by {
                lemma_filter_count_bounds(rest);
            }
            assert((st0 + trues(k)).len() > 0);
            assert(leave_one(actions[0], st0 + trues(k)) =~= st0 + trues(k - 1));
            lemma_leave_pops_filters(rest, st0);
        } else {
            assert(leave_one(actions[0], st0 + trues(k)) == st0 + trues(k));
            lemma_leave_pops_filters(rest, st0);
        }
    }
}

/// A filter count is never negative.
pub proof fn lemma_filter_count_bounds(actions: Seq<Action>)
    ensures
        0 <= filter_count(actions) <= actions.len(),
    decreases actions.len(),
{
    if actions.len() > 0 {
        lemma_filter_count_bounds(actions.drop_first());
    }
}

/// Law: a balanced enter/leave pair of one selector leaves the visibility
/// stack exactly as it was before the matched element opened — nested
/// matches compose by the same rule, innermost pair first.
pub proof fn lemma_enter_then_leave_restores(
    actions: Seq<Action>,
    el0: Element,
    st0: Seq<bool>,
    el1: Element,
    st1: Seq<bool>,
)
    requires
        enter_steps(actions, el0, st0, el1, st1, Ok::<(), ExecError>(())),
    ensures
        leave_seq(actions, st1) == st0,
{
    lemma_enter_ok_stack_exact(actions, el0, st0, el1, st1);
    lemma_leave_pops_filters(actions, st0);
}

/// What one action's leave does to the visibility stack: a Filter pops the
/// top frame (an empty stack stays empty), the others leave it alone.
pub open spec fn leave_one(action: Action, st: Seq<bool>) -> Seq<bool> {
    if action is Filter {
        if st.len() > 0 {
            st.drop_last()
        } else {
            st
        }
    } else {
        st
    }
}

/// The visibility stack after every action's leave ran, in declaration
/// order.
pub open spec fn leave_seq(actions: Seq<Action>, st: Seq<bool>) -> Seq<bool>
    decreases actions.len(),
{
    if actions.len() == 0 {
        st
    } else {
        leave_seq(actions.drop_first(), leave_one(actions[0], st))
    }
}

impl Action {
    /// Run this action's enter on a matched element.
    pub fn enter(&self, el: &mut Element, state: &mut PassState) -> (r: Result<(), ExecError>)
        ensures
            enter_step(
                *self,
                *old(el),
                old(state).output_enabled@,
                *final(el),
                final(state).output_enabled@,
                r,
            ),
    {
        match self {
            Action::Filter => {
                state.output_enabled.push(true);
                Ok(())
            },
            Action::RewriteAttribute { attr, pattern, replacement } => {
                if regex_is_valid(pattern.as_str()) {
                    let v0 = match el.get_attribute(attr.as_str()) {
                        Some(v) => v,
                        None => String::new(),
                    };
                    let v1 = regex_replace_all(pattern.as_str(), v0.as_str(), replacement.as_str());
                    el.set_attribute(attr.as_str(), v1.as_str());
                    proof {
                        lemma_attr_set_reads_back(old(el).attrs@, attr@, v1@, el.attrs@);
                    }
                    Ok(())
                } else {
                    Err(ExecError::InvalidPattern)
                }
            },
            Action::SetInnerContent { template } => {
                match render_template_raw(template.as_str(), el) {
                    Ok(s) => {
                        el.set_inner_content(s.as_str());
                        Ok(())
                    },
                    Err(_) => Err(ExecError::RenderFailed),
                }
            },
        }
    }

    /// Run this action's leave when the matched element's end tag arrives.
    pub fn leave(&self, _tag: &str, state: &mut PassState)
        ensures
            final(state).output_enabled@ == leave_one(*self, old(state).output_enabled@),
    {
        match self {
            Action::Filter => {
                let _ = state.output_enabled.pop();
                proof {
                    if old(state).output_enabled@.len() > 0 {
                        assert(state.output_enabled@ =~= old(state).output_enabled@.drop_last());
                    }
                }
            },
            _ => {},
        }
    }
}

impl PassState {
    /// Whether this pass currently lets output through: the stack's top.
    pub open spec fn enabled(self) -> bool {
        stack_enabled(self.output_enabled@)
    }

    /// Read the visibility that decides the fate of an output chunk.
    pub fn is_enabled(&self) -> (r: bool)
        ensures
            r == self.enabled(),
    {
        let n = self.output_enabled.len();
        if n == 0 {
            true
        } else {
            self.output_enabled[n - 1]
        }
    }

    /// The terminal sink step: append the chunk to the run's output when
    /// this pass's visibility allows it, and say whether it was visible. A
    /// pass that forwards to another pass instead asks `is_enabled` and
    /// hands the chunk on itself.
    pub fn handle_chunk(&self, chunk: &[u8], out: &mut ExecState) -> (r: bool)
        ensures
            r == self.enabled(),
            final(out).output@ == if self.enabled() {
                old(out).output@ + chunk@
            } else {
                old(out).output@
            },
    {
        let e = self.is_enabled();
        if e {
            out.write(chunk);
        }
        e
    }
}

impl Selector {
    /// A selector for the given structural pattern, with no actions yet.
    pub fn new(selector: &str) -> (r: Selector)
        ensures
            r.selector@ == selector@,
            r.actions@ == Seq::<Action>::empty(),
    {
        Selector { selector: selector.to_owned(), actions: Vec::new() }
    }

    /// Whether any of this selector's actions is a Filter.
    pub open spec fn spec_has_filter(self) -> bool {
        exists|j: int| 0 <= j < self.actions@.len() && self.actions@[j] is Filter
    }

    /// Append a rewrite of attribute `attr`, replacing every match of
    /// `regex` in its value with `replacement`. `Ok` exactly when the
    /// pattern is valid pattern syntax; an invalid pattern is reported at
    /// once and appends nothing.
    pub fn rewrite_attribute(&mut self, attr: &str, regex: &str, replacement: &str) -> (r: Result<
        (),
        BuildError,
    >)
        ensures
            (r is Ok) == regex_valid(regex@),
            r is Err ==> r == Err::<(), BuildError>(BuildError::InvalidPattern) && *final(self)
                == *old(self),
            r is Ok ==> final(self).selector == old(self).selector
                && final(self).actions@.len() == old(self).actions@.len() + 1
                && final(self).actions@.drop_last() == old(self).actions@
                && (match final(self).actions@.last() {
                Action::RewriteAttribute { attr: a, pattern: p, replacement: q } => a@ == attr@
                    && p@ == regex@ && q@ == replacement@,
                _ => false,
            }),
    {
        if regex_is_valid(regex) {
            self.actions.push(
                Action::RewriteAttribute {
                    attr: attr.to_owned(),
                    pattern: regex.to_owned(),
                    replacement: replacement.to_owned(),
                },
            );
            proof {
                assert(self.actions@.drop_last() =~= old(self).actions@);
            }
            Ok(())
        } else {
            Err(BuildError::InvalidPattern)
        }
    }

    /// Append a replacement of the element's inner content with the
    /// rendering of `template`.
    pub fn set_inner_content(&mut self, template: &str)
        ensures
            final(self).selector == old(self).selector,
            final(self).actions@.len() == old(self).actions@.len() + 1,
            final(self).actions@.drop_last() == old(self).actions@,
            (match final(self).actions@.last() {
                Action::SetInnerContent { template: t } => t@ == template@,
                _ => false,
            }),
    {
        self.actions.push(Action::SetInnerContent { template: template.to_owned() });
        proof {
            assert(self.actions@.drop_last() =~= old(self).actions@);
        }
    }

    /// Append a Filter action.
    pub fn filter(&mut self)
        ensures
            final(self).selector == old(self).selector,
            final(self).actions@.len() == old(self).actions@.len() + 1,
            final(self).actions@.drop_last() == old(self).actions@,
            final(self).actions@.last() is Filter,
    {
        self.actions.push(Action::Filter);
        proof {
            assert(self.actions@.drop_last() =~= old(self).actions@);
        }
    }

    /// Whether any of this selector's actions is a Filter.
    pub fn has_filter(&self) -> (r: bool)
        ensures
            r == self.spec_has_filter(),
    {
        let n = self.actions.len();
        let mut i: usize = 0;
        while i < n
            invariant
                n == self.actions@.len(),
                i <= n,
                forall|j: int| 0 <= j < i ==> !(self.actions@[j] is Filter),
            decreases n - i,
        {
            if matches!(&self.actions[i], Action::Filter) {
                return true;
            }
            i += 1;
        }
        proof {
            if self.spec_has_filter() {
                let j = choose|j: int| 0 <= j < self.actions@.len() && self.actions@[j] is Filter;
                assert(!(self.actions@[j] is Filter));
            }
        }
        false
    }

    /// Run every action's enter, in declaration order, starting at `i`.
    fn enter_from(&self, i: usize, el: &mut Element, state: &mut PassState) -> (r: Result<
        (),
        ExecError,
    >)
        requires
            i <= self.actions@.len(),
        ensures
            enter_steps(
                self.actions@.skip(i as int),
                *old(el),
                old(state).output_enabled@,
                *final(el),
                final(state).output_enabled@,
                r,
            ),
        decreases self.actions@.len() - i,
    {
        if i == self.actions.len() {
            proof {
                assert(self.actions@.skip(i as int) =~= Seq::<Action>::empty());
            }
            Ok(())
        } else {
            let a = &self.actions[i];
            let r0 = a.enter(el, state);
            let ghost elm = *el;
            let ghost stm = state.output_enabled@;
            proof {
                assert(self.actions@.skip(i as int)[0] == self.actions@[i as int]);
                assert(self.actions@.skip(i as int).drop_first() =~= self.actions@.skip(i + 1));
            }
            match r0 {
                Ok(()) => {
                    let res = self.enter_from(i + 1, el, state);
                    proof {
                        assert(enter_step(
                            self.actions@.skip(i as int)[0],
                            *old(el),
                            old(state).output_enabled@,
                            elm,
                            stm,
                            Ok::<(), ExecError>(()),
                        ));
                        assert(enter_steps(
                            self.actions@.skip(i as int).drop_first(),
                            elm,
                            stm,
                            *el,
                            state.output_enabled@,
                            res,
                        ));
                    }
                    res
                },
                Err(e) => {
                    proof {
                        assert(enter_step(
                            self.actions@.skip(i as int)[0],
                            *old(el),
                            old(state).output_enabled@,
                            elm,
                            stm,
                            Err::<(), ExecError>(e),
                        ));
                    }
                    Err(e)
                },
            }
        }
    }

    /// Run every action's enter on a matched element, in declaration order;
    /// the first failing action stops the run with its error, the actions
    /// before it already applied.
    pub fn enter_all(&self, el: &mut Element, state: &mut PassState) -> (r: Result<(), ExecError>)
        ensures
            enter_steps(
                self.actions@,
                *old(el),
                old(state).output_enabled@,
                *final(el),
                final(state).output_enabled@,
                r,
            ),
    {
        let r = self.enter_from(0, el, state);
        proof {
            assert(self.actions@.skip(0) =~= self.actions@);
        }
        r
    }

    /// Run every action's leave, in declaration order, starting at `i`.
    fn leave_from(&self, i: usize, tag: &str, state: &mut PassState)
        requires
            i <= self.actions@.len(),
        ensures
            final(state).output_enabled@ == leave_seq(
                self.actions@.skip(i as int),
                old(state).output_enabled@,
            ),
        decreases self.actions@.len() - i,
    {
        if i == self.actions.len() {
            proof {
                assert(self.actions@.skip(i as int) =~= Seq::<Action>::empty());
            }
        } else {
            let a = &self.actions[i];
            a.leave(tag, state);
            proof {
                assert(self.actions@.skip(i as int)[0] == self.actions@[i as int]);
                assert(self.actions@.skip(i as int).drop_first() =~= self.actions@.skip(i + 1));
            }
            self.leave_from(i + 1, tag, state);
        }
    }

    /// Run every action's leave when the matched element's end tag arrives,
    /// in declaration order (the same order as on enter).
    pub fn leave_all(&self, tag: &str, state: &mut PassState)
        ensures
            final(state).output_enabled@ == leave_seq(self.actions@, old(state).output_enabled@),
    {
        self.leave_from(0, tag, state);
        proof {
            assert(self.actions@.skip(0) =~= self.actions@);
        }
    }
}

impl Pass {
    /// A fresh pass with no selectors; `Pipeline::add_pass` assigns its
    /// position.
    pub fn new() -> (r: Pass)
        ensures
            r.idx == 0,
            r.selectors@ == Seq::<Selector>::empty(),
    {
        Pass { idx: 0, selectors: Vec::new() }
    }

    /// Whether any selector of this pass carries a Filter action.
    pub open spec fn spec_has_filter(self) -> bool {
        exists|i: int| 0 <= i < self.selectors@.len() && self.selectors@[i].spec_has_filter()
    }

    /// The pass's default visibility: on, unless some selector carries a
    /// Filter, in which case the pass suppresses output until a Filter
    /// enters.
    pub open spec fn spec_default_output(self) -> bool {
        !self.spec_has_filter()
    }

    /// Append a configured selector.
    pub fn on(&mut self, sel: Selector)
        ensures
            final(self).idx == old(self).idx,
            final(self).selectors@.len() == old(self).selectors@.len() + 1,
            final(self).selectors@.drop_last() == old(self).selectors@,
            final(self).selectors@.last() == sel,
    {
        self.selectors.push(sel);
        proof {
            assert(self.selectors@.drop_last() =~= old(self).selectors@);
        }
    }

    /// Append a selector whose only action is a Filter: let through exactly
    /// the elements the pattern matches.
    pub fn filter(&mut self, selector: &str)
        ensures
            final(self).idx == old(self).idx,
            final(self).selectors@.len() == old(self).selectors@.len() + 1,
            final(self).selectors@.drop_last() == old(self).selectors@,
            final(self).selectors@.last().selector@ == selector@,
            final(self).selectors@.last().actions@.len() == 1,
            final(self).selectors@.last().actions@[0] is Filter,
    {
        let mut sel = Selector::new(selector);
        sel.filter();
        self.on(sel);
    }

    /// The pass's default visibility, scanned from its selectors.
    pub fn default_output(&self) -> (r: bool)
        ensures
            r == self.spec_default_output(),
    {
        let n = self.selectors.len();
        let mut i: usize = 0;
        while i < n
            invariant
                n == self.selectors@.len(),
                i <= n,
                forall|j: int| 0 <= j < i ==> !(#[trigger] self.selectors@[j]).spec_has_filter(),
            decreases n - i,
        {
            if self.selectors[i].has_filter() {
                return false;
            }
            i += 1;
        }
        proof {
            if self.spec_has_filter() {
                let j = choose|j: int|
                    0 <= j < self.selectors@.len() && self.selectors@[j].spec_has_filter();
                assert(!self.selectors@[j].spec_has_filter());
            }
        }
        true
    }

    /// Build this pass's per-run state: a stack holding one base frame, the
    /// pass's default visibility.
    pub fn build(&self) -> (state: PassState)
        ensures
            state.output_enabled@.len() == 1,
            state.output_enabled@[0] == self.spec_default_output(),
    {
        let mut stack: Vec<bool> = Vec::new();
        stack.push(self.default_output());
        PassState { output_enabled: stack }
    }
}

impl Default for Pipeline {
    /// An empty pipeline.
    fn default() -> (r: Pipeline)
        ensures
            r.passes@ == Seq::<Pass>::empty(),
    {
        Pipeline { passes: Vec::new() }
    }
}

impl Pipeline {
    /// An empty pipeline.
    pub fn new() -> (r: Pipeline)
        ensures
            r.passes@ == Seq::<Pass>::empty(),
    {
        Pipeline { passes: Vec::new() }
    }

    /// Append a configured pass, assigning it the next position in
    /// declaration order.
    pub fn add_pass(&mut self, pass: Pass)
        ensures
            final(self).passes@.len() == old(self).passes@.len() + 1,
            final(self).passes@.drop_last() == old(self).passes@,
            final(self).passes@.last().idx == old(self).passes@.len(),
            final(self).passes@.last().selectors == pass.selectors,
    {
        let mut p = pass;
        p.idx = self.passes.len();
        self.passes.push(p);
        proof {
            assert(self.passes@.drop_last() =~= old(self).passes@);
        }
    }

    /// Build the per-run state of every pass, each a one-frame stack
    /// holding that pass's default visibility. A fresh build is made for
    /// every run; nothing carries over between runs.
    pub fn build(&self) -> (states: Vec<PassState>)
        ensures
            states@.len() == self.passes@.len(),
            forall|i: int|
                0 <= i < states@.len() ==> (#[trigger] states@[i]).output_enabled@.len() == 1
                    && states@[i].output_enabled@[0] == self.passes@[i].spec_default_output(),
    {
        let n = self.passes.len();
        let mut states: Vec<PassState> = Vec::new();
        let mut i: usize = 0;
        while i < n
            invariant
                n == self.passes@.len(),
                i <= n,
                states@.len() == i,
                forall|j: int|
                    0 <= j < i ==> (#[trigger] states@[j]).output_enabled@.len() == 1
                        && states@[j].output_enabled@[0] == self.passes@[j].spec_default_output(),
            decreases n - i,
        {
            states.push(self.passes[i].build());
            i += 1;
        }
        states
    }

    /// The pass the raw input is fed to: the last-declared one. The chain
    /// runs the passes in the reverse of their declaration order.
    pub fn entry_pass(&self) -> (r: Option<usize>)
        ensures
            self.passes@.len() == 0 ==> r is None,
            self.passes@.len() > 0 ==> r == Some((self.passes@.len() - 1) as usize),
    {
        let n = self.passes.len();
        if n == 0 {
            None
        } else {
            Some(n - 1)
        }
    }

    /// Where pass `i`'s visible chunks go: the pass declared just before
    /// it, or, for the first-declared pass, the run's output buffer
    /// (`None`).
    pub fn forward_target(&self, i: usize) -> (r: Option<usize>)
        requires
            i < self.passes@.len(),
        ensures
            i == 0 ==> r is None,
            i > 0 ==> r == Some((i - 1) as usize),
    {
        if i == 0 {
            None
        } else {
            Some(i - 1)
        }
    }
}

} // verus!
