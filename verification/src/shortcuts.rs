//! The shortcut synchronizer: which global shortcuts a refresh must
//! register, what the registrar's state is afterwards, and how a pressed
//! shortcut is dispatched back to a command.
//!
//! A refresh first unregisters every current registration unconditionally,
//! then re-reads the command list and registers each non-blank shortcut
//! independently; the registrar may refuse an entry (malformed spec or a
//! conflict with another application), which skips that entry and nothing
//! else. The host performs the registrar calls and reports one verdict per
//! planned entry.

use vstd::prelude::*;
use crate::models::{Command, CommandModel, CoreError};
use crate::text::{has_text, opt_has_text, str_eq};

verus! {

/// How the registrar's unregister-all call ended.
pub enum UnregisterOutcome {
    Cleared,
    Failed(String),
}

/// The first step of a refresh: dropping every prior registration,
/// unconditionally. A failure here is fatal to the whole refresh — a stale
/// registration left behind could route a keypress to a now-deleted or
/// now-different command — so it is surfaced and nothing re-registers.
pub fn conclude_unregister(outcome: UnregisterOutcome) -> (r: Result<(), CoreError>)
    ensures
        match outcome {
            UnregisterOutcome::Cleared => r is Ok,
            UnregisterOutcome::Failed(_) => r matches Err(e) && e is ShortcutRegistrationFailed,
        },
{
    match outcome {
        UnregisterOutcome::Cleared => Ok(()),
        UnregisterOutcome::Failed(text) => Err(CoreError::ShortcutRegistrationFailed(text)),
    }
}

/// The command snapshot a refresh works from: what the store read returned,
/// or no commands at all when the read failed — a transient read failure
/// during a mutation must not leave every shortcut permanently unregistered.
pub fn refresh_snapshot(read: Option<Vec<Command>>) -> (r: Vec<Command>)
    ensures
        match read {
            Some(commands) => r == commands,
            None => r@.len() == 0,
        },
{
    match read {
        Some(commands) => commands,
        None => Vec::new(),
    }
}

/// The shortcuts a refresh plans to register: the non-blank `shortcut`
/// values of the command snapshot, in storage order.
pub open spec fn desired_shortcuts(cs: Seq<CommandModel>) -> Seq<Seq<char>>
    decreases cs.len(),
{
    if cs.len() == 0 {
        Seq::empty()
    } else {
        let rest = desired_shortcuts(cs.drop_last());
        if has_text(cs.last().shortcut) {
            rest.push(cs.last().shortcut->0)
        } else {
            rest
        }
    }
}

/// The planned entries the registrar accepted, in planning order.
pub open spec fn accepted_shortcuts(planned: Seq<Seq<char>>, verdicts: Seq<bool>) -> Seq<
    Seq<char>,
>
    decreases planned.len(),
{
    if planned.len() == 0 || planned.len() != verdicts.len() {
        Seq::empty()
    } else {
        let rest = accepted_shortcuts(planned.drop_last(), verdicts.drop_last());
        if verdicts.last() {
            rest.push(planned.last())
        } else {
            rest
        }
    }
}

/// The registrar's state after a refresh. The prior registrations play no
/// part: the refresh drops them all before it registers anything, so the
/// result is derived from the command snapshot and the registrar's verdicts
/// alone.
pub open spec fn after_refresh(
    prior: Seq<Seq<char>>,
    cs: Seq<CommandModel>,
    verdicts: Seq<bool>,
) -> Seq<Seq<char>> {
    accepted_shortcuts(desired_shortcuts(cs), verdicts)
}

/// The registration plan of a refresh: one entry per command whose
/// `shortcut` field holds non-blank text, in storage order.
pub fn shortcuts_to_register(commands: &Vec<Command>) -> (r: Vec<String>)
    ensures
        r.deep_view() == desired_shortcuts(commands.deep_view()),
{
    let ghost cs = commands.deep_view();
    let mut r: Vec<String> = Vec::new();
    let mut i: usize = 0;
    while i < commands.len()
        invariant
            cs == commands.deep_view(),
            cs.len() == commands@.len(),
            i <= cs.len(),
            r.deep_view() == desired_shortcuts(cs.take(i as int)),
        decreases cs.len() - i,
    {
        let ghost prefix = cs.take(i as int);
        let ghost step = cs.take(i + 1);
        proof {
            assert(step.drop_last() =~= prefix);
            assert(step.last() == cs[i as int]);
        }
        if opt_has_text(&commands[i].shortcut) {
            match &commands[i].shortcut {
                Some(s) => {
                    let ghost before = r.deep_view();
                    r.push(s.clone());
                    proof {
                        assert(r.deep_view() =~= before.push(s@));
                    }
                },
                None => (),
            }
        }
        i = i + 1;
    }
    proof {
        assert(cs.take(cs.len() as int) =~= cs);
    }
    r
}

/// The registrations that stand after a refresh, given the registrar's
/// verdict on each planned entry.
pub fn registered_after_refresh(planned: Vec<String>, verdicts: &Vec<bool>) -> (r: Vec<String>)
    requires
        planned@.len() == verdicts@.len(),
    ensures
        r.deep_view() == accepted_shortcuts(planned.deep_view(), verdicts@),
{
    let ghost ps = planned.deep_view();
    let ghost vs = verdicts@;
    let mut r: Vec<String> = Vec::new();
    let mut i: usize = 0;
    while i < planned.len()
        invariant
            ps == planned.deep_view(),
            vs == verdicts@,
            ps.len() == planned@.len(),
            vs.len() == ps.len(),
            i <= ps.len(),
            r.deep_view() == accepted_shortcuts(ps.take(i as int), vs.take(i as int)),
        decreases ps.len() - i,
    {
        let ghost p_step = ps.take(i + 1);
        let ghost v_step = vs.take(i + 1);
        proof {
            assert(p_step.drop_last() =~= ps.take(i as int));
            assert(v_step.drop_last() =~= vs.take(i as int));
            assert(p_step.last() == ps[i as int]);
            assert(v_step.last() == vs[i as int]);
        }
        if verdicts[i] {
            let ghost before = r.deep_view();
            r.push(planned[i].clone());
            proof {
                assert(r.deep_view() =~= before.push(ps[i as int]));
            }
        }
        i = i + 1;
    }
    proof {
        assert(ps.take(ps.len() as int) =~= ps);
        assert(vs.take(vs.len() as int) =~= vs);
    }
    r
}

/// The first stored command bound to the pressed shortcut, if any.
pub open spec fn dispatch_spec(cs: Seq<CommandModel>, pressed: Seq<char>) -> Option<CommandModel>
    decreases cs.len(),
{
    if cs.len() == 0 {
        None
    } else if cs[0].shortcut == Some(pressed) {
        Some(cs[0])
    } else {
        dispatch_spec(cs.skip(1), pressed)
    }
}

/// Resolves a pressed shortcut against a fresh command snapshot: the first
/// command whose `shortcut` equals the pressed combination. A press that
/// matches no command is dropped by the caller.
pub fn find_by_shortcut<'a>(commands: &'a Vec<Command>, pressed: &str) -> (r: Option<&'a Command>)
    ensures
        match r {
            Some(c) => dispatch_spec(commands.deep_view(), pressed@) == Some(c@),
            None => dispatch_spec(commands.deep_view(), pressed@) is None,
        },
{
    let ghost cs = commands.deep_view();
    proof {
        assert(cs.skip(0) =~= cs);
    }
    let mut i: usize = 0;
    while i < commands.len()
        invariant
            cs == commands.deep_view(),
            cs.len() == commands@.len(),
            i <= cs.len(),
            dispatch_spec(cs, pressed@) == dispatch_spec(cs.skip(i as int), pressed@),
        decreases cs.len() - i,
    {
        proof {
            assert(cs.skip(i as int)[0] == cs[i as int]);
            assert(cs.skip(i as int).skip(1) =~= cs.skip(i + 1));
        }
        let hit = match &commands[i].shortcut {
            Some(s) => str_eq(s.as_str(), pressed),
            None => false,
        };
        if hit {
            return Some(&commands[i]);
        }
        i = i + 1;
    }
    None
}

/// A shortcut is planned exactly when some command carries it non-blank.
pub proof fn lemma_desired_membership(cs: Seq<CommandModel>, x: Seq<char>)
    ensures
        desired_shortcuts(cs).contains(x) <==> exists|i: int|
            0 <= i < cs.len() && cs[i].shortcut == Some(x) && has_text(cs[i].shortcut),
    decreases cs.len(),
{
    if cs.len() > 0 {
        lemma_desired_membership(cs.drop_last(), x);
        let shorter = desired_shortcuts(cs.drop_last());
        assert(forall|j: int| 0 <= j < cs.len() - 1 ==> cs.drop_last()[j] == cs[j]);
        if has_text(cs.last().shortcut) {
            assert(desired_shortcuts(cs) == shorter.push(cs.last().shortcut->0));
            if desired_shortcuts(cs).contains(x) {
                let k = choose|k: int|
                    0 <= k < desired_shortcuts(cs).len() && desired_shortcuts(cs)[k] == x;
                if k < shorter.len() {
                    assert(shorter[k] == x);
                    assert(shorter.contains(x));
                } else {
                    assert(cs[cs.len() - 1].shortcut == Some(x));
                }
            }
            if exists|i: int|
                0 <= i < cs.len() && cs[i].shortcut == Some(x) && has_text(cs[i].shortcut) {
                let i = choose|i: int|
                    0 <= i < cs.len() && cs[i].shortcut == Some(x) && has_text(cs[i].shortcut);
                if i < cs.len() - 1 {
                    assert(cs.drop_last()[i] == cs[i]);
                    assert(shorter.contains(x));
                    let k = choose|k: int| 0 <= k < shorter.len() && shorter[k] == x;
                    assert(desired_shortcuts(cs)[k] == x);
                } else {
                    assert(desired_shortcuts(cs)[shorter.len() as int] == x);
                }
            }
        } else {
            if exists|i: int|
                0 <= i < cs.len() && cs[i].shortcut == Some(x) && has_text(cs[i].shortcut) {
                let i = choose|i: int|
                    0 <= i < cs.len() && cs[i].shortcut == Some(x) && has_text(cs[i].shortcut);
                assert(i < cs.len() - 1);
                assert(cs.drop_last()[i] == cs[i]);
            }
        }
    }
}

/// A shortcut stands registered after a refresh exactly when it is planned
/// at some position whose verdict accepted it. With every verdict true,
/// the registered set is exactly the set of non-blank shortcuts of the
/// snapshot.
pub proof fn lemma_registered_membership(
    cs: Seq<CommandModel>,
    verdicts: Seq<bool>,
    x: Seq<char>,
)
    requires
        verdicts.len() == desired_shortcuts(cs).len(),
    ensures
        accepted_shortcuts(desired_shortcuts(cs), verdicts).contains(x) <==> exists|k: int|
            0 <= k < desired_shortcuts(cs).len() && desired_shortcuts(cs)[k] == x && verdicts[k],
{
    lemma_accepted_membership(desired_shortcuts(cs), verdicts, x);
}

proof fn lemma_accepted_membership(planned: Seq<Seq<char>>, verdicts: Seq<bool>, x: Seq<char>)
    requires
        verdicts.len() == planned.len(),
    ensures
        accepted_shortcuts(planned, verdicts).contains(x) <==> exists|k: int|
            0 <= k < planned.len() && planned[k] == x && verdicts[k],
    decreases planned.len(),
{
    if planned.len() > 0 {
        lemma_accepted_membership(planned.drop_last(), verdicts.drop_last(), x);
        let shorter = accepted_shortcuts(planned.drop_last(), verdicts.drop_last());
        assert(forall|j: int| 0 <= j < planned.len() - 1 ==> planned.drop_last()[j] == planned[j]);
        assert(forall|j: int|
            0 <= j < verdicts.len() - 1 ==> verdicts.drop_last()[j] == verdicts[j]);
        if verdicts.last() {
            assert(accepted_shortcuts(planned, verdicts) == shorter.push(planned.last()));
            if accepted_shortcuts(planned, verdicts).contains(x) {
                let k = choose|k: int|
                    0 <= k < shorter.push(planned.last()).len() && shorter.push(planned.last())[k]
                        == x;
                if k < shorter.len() {
                    assert(shorter[k] == x);
                    assert(shorter.contains(x));
                } else {
                    assert(planned[planned.len() - 1] == x);
                }
            }
            if exists|k: int| 0 <= k < planned.len() && planned[k] == x && verdicts[k] {
                let k = choose|k: int| 0 <= k < planned.len() && planned[k] == x && verdicts[k];
                if k < planned.len() - 1 {
                    assert(shorter.contains(x));
                    let m = choose|m: int| 0 <= m < shorter.len() && shorter[m] == x;
                    assert(shorter.push(planned.last())[m] == x);
                } else {
                    assert(shorter.push(planned.last())[shorter.len() as int] == x);
                }
            }
        } else {
            if exists|k: int| 0 <= k < planned.len() && planned[k] == x && verdicts[k] {
                let k = choose|k: int| 0 <= k < planned.len() && planned[k] == x && verdicts[k];
                assert(k < planned.len() - 1);
            }
        }
    }
}

/// A refresh leaves registered exactly the non-blank shortcuts of the
/// snapshot that the registrar accepted, whatever was registered before;
/// and a second refresh over the same snapshot with the same verdicts
/// changes nothing.
pub proof fn lemma_refresh_registrations(
    prior1: Seq<Seq<char>>,
    prior2: Seq<Seq<char>>,
    cs: Seq<CommandModel>,
    verdicts: Seq<bool>,
)
    ensures
        after_refresh(prior1, cs, verdicts) == accepted_shortcuts(desired_shortcuts(cs), verdicts),
        after_refresh(prior1, cs, verdicts) == after_refresh(prior2, cs, verdicts),
        after_refresh(after_refresh(prior1, cs, verdicts), cs, verdicts) == after_refresh(
            prior1,
            cs,
            verdicts,
        ),
{
}

} // verus!
