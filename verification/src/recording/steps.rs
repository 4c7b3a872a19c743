//! Flow steps made from recorded events, and the clean-up of a recorded step
//! list before it is saved.

use vstd::prelude::*;
use super::selectors::{build_smart_selector, candidates, event_convertible, is_selector_of, RawEvent, SmartSelector};
use crate::text::{byte_len, str_eq};

verus! {

/// One step of a recorded flow.
#[derive(Debug)]
pub enum FlowStep {
    Navigate { url: String },
    Click { selector: SmartSelector },
    Type { selector: SmartSelector, value: String, is_masked: bool, clear_first: bool },
    Submit { selector: SmartSelector, wait_for_navigation: bool },
}

/// The step an event of the given type becomes with selector `sel`, if the type
/// is one that is recorded (`click`, `input`, `submit`).
pub open spec fn event_step_ok(e: RawEvent, step: FlowStep, sel: SmartSelector) -> bool {
    if e.event_type@ == "click"@ {
        step == FlowStep::Click { selector: sel }
    } else if e.event_type@ == "input"@ {
        step matches FlowStep::Type { selector, value, is_masked, clear_first } && selector == sel && value@ == (
        match e.value {
            Some(v) => v@,
            None => Seq::empty(),
        }) && is_masked == (match e.is_password {
            Some(b) => b,
            None => false,
        }) && !clear_first
    } else {
        step == FlowStep::Submit { selector: sel, wait_for_navigation: true }
    }
}

/// The event's type is one that becomes a step.
pub open spec fn recorded_type(t: Seq<char>) -> bool {
    t == "click"@ || t == "input"@ || t == "submit"@
}

/// Turns a recorded event into a flow step: clicks, inputs and submits with a
/// usable selector become steps, anything else is dropped.
pub fn convert_event_to_step(event: RawEvent) -> (r: Option<FlowStep>)
    requires
        event_convertible(event),
    ensures
        ({
            let c = candidates(
                event,
                match event.id {
                    Some(i) => byte_len(i@),
                    None => 0,
                },
            );
            &&& (c.len() == 0 || !recorded_type(event.event_type@)) ==> r is None
            &&& (c.len() > 0 && recorded_type(event.event_type@)) ==> (r matches Some(step) && exists|sel: SmartSelector|
                is_selector_of(sel, c) && #[trigger] event_step_ok(event, step, sel))
        }),
{
    let ghost e0 = event;
    let selector = match build_smart_selector(&event) {
        Some(s) => s,
        None => return None,
    };
    let ghost sel = selector;
    if str_eq(event.event_type.as_str(), "click") {
        let step = FlowStep::Click { selector };
        assert(event_step_ok(e0, step, sel));
        Some(step)
    } else if str_eq(event.event_type.as_str(), "input") {
        let is_masked = match event.is_password {
            Some(b) => b,
            None => false,
        };
        let value = match event.value {
            Some(v) => v,
            None => String::new(),
        };
        let step = FlowStep::Type { selector, value, is_masked, clear_first: false };
        proof {
            if e0.value is None {
                assert(value@ =~= Seq::<char>::empty());
            }
            assert(event_step_ok(e0, step, sel));
        }
        Some(step)
    } else if str_eq(event.event_type.as_str(), "submit") {
        let step = FlowStep::Submit { selector, wait_for_navigation: true };
        proof {
            reveal_strlit("click");
            reveal_strlit("input");
            reveal_strlit("submit");
            assert(e0.event_type@ != "click"@);
            assert(event_step_ok(e0, step, sel));
        }
        Some(step)
    } else {
        None
    }
}

/// The selector text of a click, type or submit step.
pub open spec fn selector_text(s: FlowStep) -> Option<Seq<char>> {
    match s {
        FlowStep::Click { selector } => Some(selector.value@),
        FlowStep::Type { selector, .. } => Some(selector.value@),
        FlowStep::Submit { selector, .. } => Some(selector.value@),
        FlowStep::Navigate { .. } => None,
    }
}

/// Some type step in `s` targets selector `v`.
pub open spec fn has_type_for(s: Seq<FlowStep>, v: Seq<char>) -> bool {
    exists|i: int| 0 <= i < s.len() && (#[trigger] s[i]) is Type && selector_text(s[i]) == Some(v)
}

/// The steps with the noise removed, deciding each step by the steps after it:
/// a type step is kept only if it is the last one on its selector, and then
/// clears the field first; a click is dropped when a later type step uses its
/// selector or the next kept step is a click on the same selector; a submit is
/// dropped when the next kept step is a submit on the same selector.
pub open spec fn optimized(s: Seq<FlowStep>) -> Seq<FlowStep>
    decreases s.len(),
{
    if s.len() == 0 {
        Seq::empty()
    } else {
        let head = s[0];
        let tail = s.drop_first();
        let rest = optimized(tail);
        match head {
            FlowStep::Type { selector, value, is_masked, clear_first } => if has_type_for(tail, selector.value@) {
                rest
            } else {
                seq![FlowStep::Type { selector, value, is_masked, clear_first: true }] + rest
            },
            FlowStep::Click { selector } => if has_type_for(tail, selector.value@) || (rest.len() > 0 && rest[0] is Click
                && selector_text(rest[0]) == Some(selector.value@)) {
                rest
            } else {
                seq![head] + rest
            },
            FlowStep::Submit { selector, .. } => if rest.len() > 0 && rest[0] is Submit && selector_text(rest[0]) == Some(
                selector.value@,
            ) {
                rest
            } else {
                seq![head] + rest
            },
            FlowStep::Navigate { .. } => seq![head] + rest,
        }
    }
}

fn seen_contains(seen: &Vec<String>, v: &str) -> (r: bool)
    ensures
        r == exists|j: int| 0 <= j < seen@.len() && (#[trigger] seen@[j])@ == v@,
{
    let mut j: usize = 0;
    while j < seen.len()
        invariant
            j <= seen@.len(),
            forall|t: int| 0 <= t < j ==> (#[trigger] seen@[t])@ != v@,
        decreases seen.len() - j,
    {
        if str_eq(seen[j].as_str(), v) {
            return true;
        }
        j = j + 1;
    }
    false
}

fn first_is(res: &Vec<FlowStep>, click: bool, v: &str) -> (r: bool)
    ensures
        r == (res@.len() > 0 && (if click { res@[0] is Click } else { res@[0] is Submit }) && selector_text(res@[0]) == Some(
            v@,
        )),
{
    if res.len() == 0 {
        return false;
    }
    match &res[0] {
        FlowStep::Click { selector } => click && str_eq(selector.value.as_str(), v),
        FlowStep::Submit { selector, .. } => !click && str_eq(selector.value.as_str(), v),
        _ => false,
    }
}

/// Removes noise from recorded steps (see `optimized`).
pub fn optimize_steps(steps: Vec<FlowStep>) -> (r: Vec<FlowStep>)
    ensures
        r@ == optimized(steps@),
{
    let ghost orig = steps@;
    let mut s = steps;
    let mut res: Vec<FlowStep> = Vec::new();
    let mut seen: Vec<String> = Vec::new();
    proof {
        assert(orig.skip(orig.len() as int) =~= Seq::<FlowStep>::empty());
    }
    while s.len() > 0
        invariant
            s@.len() <= orig.len(),
            s@ == orig.take(s@.len() as int),
            res@ == optimized(orig.skip(s@.len() as int)),
            forall|x: Seq<char>|
                (exists|j: int| 0 <= j < seen@.len() && (#[trigger] seen@[j])@ == x) <==> has_type_for(
                    orig.skip(s@.len() as int),
                    x,
                ),
        decreases s.len(),
    {
        let k = s.len() - 1;
        let ghost tail = orig.skip(s@.len() as int);
        let step = s.pop().unwrap();
        proof {
            assert(step == orig[k as int]);
            assert(orig.skip(k as int).drop_first() =~= tail);
            assert(orig.skip(k as int)[0] == step);
            assert(s@ =~= orig.take(k as int));
        }
        let ghost rest = res@;
        let ghost seen0 = seen@;
        match step {
            FlowStep::Type { selector, value, is_masked, clear_first } => {
                let seen_it = seen_contains(&seen, selector.value.as_str());
                if !seen_it {
                    seen.push(selector.value.clone());
                    res.insert(0, FlowStep::Type { selector, value, is_masked, clear_first: true });
                    proof {
                        assert(res@ =~= seq![res@[0]] + rest);
                    }
                }
                proof {
                    let sv = orig[k as int];
                    let nt = orig.skip(k as int);
                    assert forall|x: Seq<char>|
                        (exists|j: int| 0 <= j < seen@.len() && (#[trigger] seen@[j])@ == x) <==> has_type_for(nt, x) by {
                        if has_type_for(tail, x) {
                            let i = choose|i: int| 0 <= i < tail.len() && (#[trigger] tail[i]) is Type && selector_text(tail[i]) == Some(x);
                            assert(nt[i + 1] == tail[i]);
                        }
                        if has_type_for(nt, x) {
                            let i = choose|i: int| 0 <= i < nt.len() && (#[trigger] nt[i]) is Type && selector_text(nt[i]) == Some(x);
                            if i > 0 {
                                assert(tail[i - 1] == nt[i]);
                            }
                        }
                        if exists|j: int| 0 <= j < seen@.len() && (#[trigger] seen@[j])@ == x {
                            let j = choose|j: int| 0 <= j < seen@.len() && (#[trigger] seen@[j])@ == x;
                            if j < seen0.len() {
                                assert(seen0[j] == seen@[j]);
                            } else {
                                assert(nt[0] == sv);
                            }
                        }
                        if !seen_it && x == sv->Type_selector.value@ {
                            assert(seen@[seen0.len() as int]@ == x);
                        }
                        if (exists|j: int| 0 <= j < seen0.len() && (#[trigger] seen0[j])@ == x) {
                            let j = choose|j: int| 0 <= j < seen0.len() && (#[trigger] seen0[j])@ == x;
                            assert(seen@[j] == seen0[j]);
                        }
                        if seen_it && x == sv->Type_selector.value@ {
                            let j = choose|j: int| 0 <= j < seen0.len() && (#[trigger] seen0[j])@ == x;
                            assert(seen@[j] == seen0[j]);
                        }
                    }
                }
            },
            FlowStep::Click { selector } => {
                let skip = seen_contains(&seen, selector.value.as_str()) || first_is(&res, true, selector.value.as_str());
                if !skip {
                    res.insert(0, FlowStep::Click { selector });
                    proof {
                        assert(res@ =~= seq![orig[k as int]] + rest);
                    }
                }
                proof {
                    let nt = orig.skip(k as int);
                    assert forall|x: Seq<char>| has_type_for(nt, x) <==> has_type_for(tail, x) by {
                        if has_type_for(tail, x) {
                            let i = choose|i: int| 0 <= i < tail.len() && (#[trigger] tail[i]) is Type && selector_text(tail[i]) == Some(x);
                            assert(nt[i + 1] == tail[i]);
                        }
                        if has_type_for(nt, x) {
                            let i = choose|i: int| 0 <= i < nt.len() && (#[trigger] nt[i]) is Type && selector_text(nt[i]) == Some(x);
                            assert(i > 0);
                            assert(tail[i - 1] == nt[i]);
                        }
                    }
                }
            },
            FlowStep::Submit { selector, wait_for_navigation } => {
                let skip = first_is(&res, false, selector.value.as_str());
                if !skip {
                    res.insert(0, FlowStep::Submit { selector, wait_for_navigation });
                    proof {
                        assert(res@ =~= seq![orig[k as int]] + rest);
                    }
                }
                proof {
                    let nt = orig.skip(k as int);
                    assert forall|x: Seq<char>| has_type_for(nt, x) <==> has_type_for(tail, x) by {
                        if has_type_for(tail, x) {
                            let i = choose|i: int| 0 <= i < tail.len() && (#[trigger] tail[i]) is Type && selector_text(tail[i]) == Some(x);
                            assert(nt[i + 1] == tail[i]);
                        }
                        if has_type_for(nt, x) {
                            let i = choose|i: int| 0 <= i < nt.len() && (#[trigger] nt[i]) is Type && selector_text(nt[i]) == Some(x);
                            assert(i > 0);
                            assert(tail[i - 1] == nt[i]);
                        }
                    }
                }
            },
            FlowStep::Navigate { url } => {
                res.insert(0, FlowStep::Navigate { url });
                proof {
                    assert(res@ =~= seq![orig[k as int]] + rest);
                    let nt = orig.skip(k as int);
                    assert forall|x: Seq<char>| has_type_for(nt, x) <==> has_type_for(tail, x) by {
                        if has_type_for(tail, x) {
                            let i = choose|i: int| 0 <= i < tail.len() && (#[trigger] tail[i]) is Type && selector_text(tail[i]) == Some(x);
                            assert(nt[i + 1] == tail[i]);
                        }
                        if has_type_for(nt, x) {
                            let i = choose|i: int| 0 <= i < nt.len() && (#[trigger] nt[i]) is Type && selector_text(nt[i]) == Some(x);
                            assert(i > 0);
                            assert(tail[i - 1] == nt[i]);
                        }
                    }
                }
            },
        }
    }
    proof {
        assert(orig.skip(0) =~= orig);
    }
    res
}

proof fn lemma_types_come_from_input(s: Seq<FlowStep>)
    ensures
        forall|i: int|
            0 <= i < optimized(s).len() && (#[trigger] optimized(s)[i]) is Type ==> has_type_for(
                s,
                selector_text(optimized(s)[i])->0,
            ),
    decreases s.len(),
{
    if s.len() > 0 {
        let tail = s.drop_first();
        lemma_types_come_from_input(tail);
        let o = optimized(s);
        let rest = optimized(tail);
        assert forall|i: int| 0 <= i < o.len() && (#[trigger] o[i]) is Type implies has_type_for(
            s,
            selector_text(o[i])->0,
        ) by {
            let v = selector_text(o[i])->0;
            if o =~= rest {
                assert(rest[i] is Type);
                assert(has_type_for(tail, v));
                let j = choose|j: int| 0 <= j < tail.len() && (#[trigger] tail[j]) is Type && selector_text(tail[j]) == Some(v);
                assert(s[j + 1] == tail[j]);
            } else if i == 0 {
                assert(s[0] is Type);
                assert(selector_text(s[0]) == Some(v));
            } else {
                assert(o[i] == rest[i - 1]);
                assert(rest[i - 1] is Type);
                let j = choose|j: int| 0 <= j < tail.len() && (#[trigger] tail[j]) is Type && selector_text(tail[j]) == Some(v);
                assert(s[j + 1] == tail[j]);
            }
        }
    }
}

/// What optimizing leaves behind: no submit step is directly followed by a
/// submit on the same selector, no click directly by a click on the same
/// selector, every type step clears its field first, and no two type steps
/// fill the same selector.
pub proof fn law_optimized_steps_have_no_repeats(s: Seq<FlowStep>)
    ensures
        forall|i: int|
            0 <= i && i + 1 < optimized(s).len() && (#[trigger] optimized(s)[i]) is Submit && optimized(s)[i + 1] is Submit
                ==> selector_text(optimized(s)[i]) != selector_text(optimized(s)[i + 1]),
        forall|i: int|
            0 <= i && i + 1 < optimized(s).len() && (#[trigger] optimized(s)[i]) is Click && optimized(s)[i + 1] is Click
                ==> selector_text(optimized(s)[i]) != selector_text(optimized(s)[i + 1]),
        forall|i: int|
            0 <= i < optimized(s).len() && (#[trigger] optimized(s)[i]) is Type ==> optimized(s)[i]->Type_clear_first,
        forall|i: int, j: int|
            0 <= i < j < optimized(s).len() && (#[trigger] optimized(s)[i]) is Type && (#[trigger] optimized(s)[j]) is Type
                ==> selector_text(optimized(s)[i]) != selector_text(optimized(s)[j]),
    decreases s.len(),
{
    if s.len() > 0 {
        let tail = s.drop_first();
        law_optimized_steps_have_no_repeats(tail);
        lemma_types_come_from_input(tail);
        let o = optimized(s);
        let rest = optimized(tail);
        if !(o =~= rest) {
            assert(o =~= seq![o[0]] + rest);
            assert forall|i: int| 0 < i < o.len() implies o[i] == rest[i - 1] by {}
            assert forall|i: int|
                0 <= i && i + 1 < o.len() && (#[trigger] o[i]) is Submit && o[i + 1] is Submit implies selector_text(o[i])
                    != selector_text(o[i + 1]) by {
                if i > 0 {
                    assert(o[i] == rest[i - 1]);
                    assert(o[i + 1] == rest[i]);
                }
            }
            assert forall|i: int|
                0 <= i && i + 1 < o.len() && (#[trigger] o[i]) is Click && o[i + 1] is Click implies selector_text(o[i])
                    != selector_text(o[i + 1]) by {
                if i > 0 {
                    assert(o[i] == rest[i - 1]);
                    assert(o[i + 1] == rest[i]);
                }
            }
            assert forall|i: int| 0 <= i < o.len() && (#[trigger] o[i]) is Type implies o[i]->Type_clear_first by {
                if i > 0 {
                    assert(o[i] == rest[i - 1]);
                }
            }
            assert forall|i: int, j: int|
                0 <= i < j < o.len() && (#[trigger] o[i]) is Type && (#[trigger] o[j]) is Type implies selector_text(o[i])
                    != selector_text(o[j]) by {
                assert(o[j] == rest[j - 1]);
                if i > 0 {
                    assert(o[i] == rest[i - 1]);
                } else {
                    assert(rest[j - 1] is Type);
                    if selector_text(o[0]) == selector_text(o[j]) {
                        assert(has_type_for(tail, selector_text(rest[j - 1])->0));
                    }
                }
            }
        }
    }
}

} // verus!
