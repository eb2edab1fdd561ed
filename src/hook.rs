use vstd::prelude::*;
use crate::module::{Module, first_match, no_match};
use crate::pattern::Signature;

verus! {

/// Where a hook stands in its lifecycle.
#[derive(Debug, Clone, Copy, PartialEq, Eq, Structural)]
pub enum HookState {
    /// No redirect has been created; no addresses are known.
    Uninstalled,
    /// The redirect exists and is not active yet.
    Installed,
    /// The redirect is active.
    Enabled,
    /// The redirect was made inactive; the addresses are kept.
    Disabled,
}

/// Why a hook operation failed.
#[derive(Debug, Clone, Copy, PartialEq, Eq, Structural)]
pub enum HookError {
    /// The hook already holds a redirect.
    AlreadyInstalled,
    /// The hook holds no redirect yet.
    NotInstalled,
    /// The signature matches nowhere in the module's image.
    SignatureNotFound,
    /// The hooking engine refused, with its status code.
    Engine(i32),
}

/// A redirect from a function found by signature to caller-supplied code.
///
/// The hooking engine patches code in the running process, which this type
/// does not do itself: each operation hands the caller the address to pass
/// to the engine, and takes back what the engine answered. Nothing is undone
/// when a hook is dropped; disabling it is the owner's call.
#[derive(Debug)]
pub struct Hook {
    sig: Signature,
    name: String,
    detour: usize,
    target: Option<usize>,
    original: Option<usize>,
    state: HookState,
}

impl Hook {
    pub closed spec fn spec_signature(&self) -> Signature {
        self.sig
    }

    pub closed spec fn spec_name(&self) -> Seq<char> {
        self.name@
    }

    pub closed spec fn spec_detour(&self) -> usize {
        self.detour
    }

    /// Address of the hooked function, once installed.
    pub closed spec fn spec_target(&self) -> Option<usize> {
        self.target
    }

    /// Address of the trampoline that still runs the original code, once
    /// installed.
    pub closed spec fn spec_original(&self) -> Option<usize> {
        self.original
    }

    /// Where the hook stands in its lifecycle.
    pub closed spec fn spec_state(&self) -> HookState {
        self.state
    }

    /// Both addresses are known exactly when the hook is past `Uninstalled`.
    pub open spec fn wf(&self) -> bool {
        &&& self.spec_signature().wf()
        &&& (self.spec_state() == HookState::Uninstalled <==> self.spec_target() is None)
        &&& (self.spec_target() is None <==> self.spec_original() is None)
    }

    /// The hook after the engine answered a request to switch the redirect
    /// on (`on`) or off; `ok` is whether it succeeded.
    pub open spec fn switched(self, on: bool, ok: bool) -> Hook {
        if self.spec_target() is Some && ok {
            self.with_state(if on { HookState::Enabled } else { HookState::Disabled })
        } else {
            self
        }
    }

    /// The hook with only its lifecycle state replaced.
    pub closed spec fn with_state(self, state: HookState) -> Hook {
        Hook { state, ..self }
    }

    /// The hook after the engine answered each of `steps` in turn, a step
    /// being whether it switched on and whether the engine succeeded.
    pub open spec fn switched_all(self, steps: Seq<(bool, bool)>) -> Hook
        decreases steps.len(),
    {
        if steps.len() == 0 {
            self
        } else {
            self.switched(steps[0].0, steps[0].1).switched_all(steps.drop_first())
        }
    }

    /// Once installed, a hook can be enabled and disabled in any order, any
    /// number of times: it keeps its target and trampoline addresses and its
    /// signature, never needs the signature resolved again, and stands where
    /// the last successful switch put it.
    pub proof fn switching_keeps_addresses(self, steps: Seq<(bool, bool)>)
        requires
            self.wf(),
            self.spec_target() is Some,
        ensures
            self.switched_all(steps).wf(),
            self.switched_all(steps).spec_target() == self.spec_target(),
            self.switched_all(steps).spec_original() == self.spec_original(),
            self.switched_all(steps).spec_signature() == self.spec_signature(),
            self.switched_all(steps).spec_detour() == self.spec_detour(),
            steps.len() > 0 && steps.last().1 ==> self.switched_all(steps).spec_state() == if steps.last().0 {
                HookState::Enabled
            } else {
                HookState::Disabled
            },
        decreases steps.len(),
    {
        if steps.len() > 0 {
            let next = self.switched(steps[0].0, steps[0].1);
            self.lemma_with_state(HookState::Enabled);
            self.lemma_with_state(HookState::Disabled);
            next.switching_keeps_addresses(steps.drop_first());
            if steps.len() > 1 {
                assert(steps.drop_first().last() == steps.last());
            }
        }
    }

    /// Replacing the state leaves every other part of the hook as it was.
    pub proof fn lemma_with_state(self, state: HookState)
        ensures
            self.with_state(state).spec_state() == state,
            self.with_state(state).spec_target() == self.spec_target(),
            self.with_state(state).spec_original() == self.spec_original(),
            self.with_state(state).spec_signature() == self.spec_signature(),
            self.with_state(state).spec_name() == self.spec_name(),
            self.with_state(state).spec_detour() == self.spec_detour(),
    {
    }

    /// A hook for the function that `sig` locates, to be redirected to
    /// `detour`; `name` names the function for diagnostics.
    pub fn new(sig: Signature, name: String, detour: usize) -> (r: Hook)
        requires
            sig.wf(),
        ensures
            r.wf(),
            r.spec_signature() == sig,
            r.spec_name() == name@,
            r.spec_detour() == detour,
            r.spec_state() == HookState::Uninstalled,
            r.spec_target() is None,
            r.spec_original() is None,
    {
        Hook { sig, name, detour, target: None, original: None, state: HookState::Uninstalled }
    }

    pub fn signature(&self) -> (r: &Signature)
        ensures
            *r == self.spec_signature(),
    {
        &self.sig
    }

    pub fn name(&self) -> (r: &str)
        ensures
            r@ == self.spec_name(),
    {
        self.name.as_str()
    }

    pub fn detour(&self) -> (r: usize)
        ensures
            r == self.spec_detour(),
    {
        self.detour
    }

    pub fn target(&self) -> (r: Option<usize>)
        ensures
            r == self.spec_target(),
    {
        self.target
    }

    pub fn original(&self) -> (r: Option<usize>)
        ensures
            r == self.spec_original(),
    {
        self.original
    }

    pub fn state(&self) -> (r: HookState)
        ensures
            r == self.spec_state(),
    {
        self.state
    }

    /// First half of installing: finds the target address in `module`, whose
    /// image bytes are `image`. The caller then asks the engine for a
    /// redirect from that address to `detour()` and hands the answer to
    /// `install`.
    pub fn locate(&self, module: &Module, image: &[u8]) -> (r: Result<usize, HookError>)
        requires
            self.wf(),
            module.wf(),
            image@.len() == module.size,
        ensures
            self.spec_target() is Some ==> r == Err::<usize, HookError>(HookError::AlreadyInstalled),
            self.spec_target() is None ==> match r {
                Ok(a) => module.base <= a && first_match(
                    image@,
                    self.spec_signature().bytes@,
                    self.spec_signature().mask@,
                    a - module.base,
                ),
                Err(e) => e == HookError::SignatureNotFound && no_match(
                    image@,
                    self.spec_signature().bytes@,
                    self.spec_signature().mask@,
                ),
            },
    {
        if self.target.is_some() {
            return Err(HookError::AlreadyInstalled);
        }
        match module.find(image, &self.sig) {
            Some(a) => Ok(a),
            None => Err(HookError::SignatureNotFound),
        }
    }

    /// Second half of installing: records the engine's answer to a request
    /// for a redirect from `target` to `detour()`. On success the hook holds
    /// both addresses and is `Installed`, not yet active; on failure it is
    /// left as it was.
    pub fn install(&mut self, target: usize, created: Result<usize, i32>) -> (r: Result<(), HookError>)
        requires
            old(self).wf(),
        ensures
            final(self).wf(),
            final(self).spec_signature() == old(self).spec_signature(),
            final(self).spec_name() == old(self).spec_name(),
            final(self).spec_detour() == old(self).spec_detour(),
            old(self).spec_target() is Some ==> r == Err::<(), HookError>(HookError::AlreadyInstalled)
                && *final(self) == *old(self),
            old(self).spec_target() is None ==> match created {
                Ok(orig) => r is Ok && final(self).spec_target() == Some(target)
                    && final(self).spec_original() == Some(orig) && final(self).spec_state()
                    == HookState::Installed,
                Err(code) => r == Err::<(), HookError>(HookError::Engine(code)) && *final(self)
                    == *old(self),
            },
    {
        if self.target.is_some() {
            return Err(HookError::AlreadyInstalled);
        }
        match created {
            Ok(orig) => {
                self.target = Some(target);
                self.original = Some(orig);
                self.state = HookState::Installed;
                Ok(())
            },
            Err(code) => Err(HookError::Engine(code)),
        }
    }

    /// The address whose redirect the engine is to switch on or off; fails,
    /// and asks for no engine call, while the hook is not installed.
    pub fn switch_target(&self) -> (r: Result<usize, HookError>)
        ensures
            match self.spec_target() {
                Some(t) => r == Ok::<usize, HookError>(t),
                None => r == Err::<usize, HookError>(HookError::NotInstalled),
            },
    {
        match self.target {
            Some(t) => Ok(t),
            None => Err(HookError::NotInstalled),
        }
    }

    /// Records the engine's answer to switching the redirect on at
    /// `switch_target()`. On success the hook is `Enabled`; an engine
    /// failure comes back unchanged and leaves the hook as it was.
    pub fn enable(&mut self, outcome: Result<(), i32>) -> (r: Result<(), HookError>)
        requires
            old(self).wf(),
        ensures
            final(self).wf(),
            *final(self) == old(self).switched(true, outcome is Ok),
            final(self).spec_target() == old(self).spec_target(),
            final(self).spec_original() == old(self).spec_original(),
            final(self).spec_signature() == old(self).spec_signature(),
            final(self).spec_name() == old(self).spec_name(),
            final(self).spec_detour() == old(self).spec_detour(),
            old(self).spec_target() is Some && outcome is Ok ==> final(self).spec_state() == HookState::Enabled,
            old(self).spec_target() is None || outcome is Err ==> final(self).spec_state()
                == old(self).spec_state(),
            old(self).spec_target() is None ==> r == Err::<(), HookError>(HookError::NotInstalled),
            old(self).spec_target() is Some ==> match outcome {
                Ok(_) => r is Ok,
                Err(code) => r == Err::<(), HookError>(HookError::Engine(code)),
            },
    {
        self.switch(true, outcome)
    }

    /// Records the engine's answer to switching the redirect off at
    /// `switch_target()`. On success the hook is `Disabled`, keeping both
    /// addresses so that it can be enabled again; an engine failure comes
    /// back unchanged and leaves the hook as it was.
    pub fn disable(&mut self, outcome: Result<(), i32>) -> (r: Result<(), HookError>)
        requires
            old(self).wf(),
        ensures
            final(self).wf(),
            *final(self) == old(self).switched(false, outcome is Ok),
            final(self).spec_target() == old(self).spec_target(),
            final(self).spec_original() == old(self).spec_original(),
            final(self).spec_signature() == old(self).spec_signature(),
            final(self).spec_name() == old(self).spec_name(),
            final(self).spec_detour() == old(self).spec_detour(),
            old(self).spec_target() is Some && outcome is Ok ==> final(self).spec_state() == HookState::Disabled,
            old(self).spec_target() is None || outcome is Err ==> final(self).spec_state()
                == old(self).spec_state(),
            old(self).spec_target() is None ==> r == Err::<(), HookError>(HookError::NotInstalled),
            old(self).spec_target() is Some ==> match outcome {
                Ok(_) => r is Ok,
                Err(code) => r == Err::<(), HookError>(HookError::Engine(code)),
            },
    {
        self.switch(false, outcome)
    }

    fn switch(&mut self, on: bool, outcome: Result<(), i32>) -> (r: Result<(), HookError>)
        requires
            old(self).wf(),
        ensures
            final(self).wf(),
            *final(self) == old(self).switched(on, outcome is Ok),
            final(self).spec_target() == old(self).spec_target(),
            final(self).spec_original() == old(self).spec_original(),
            final(self).spec_signature() == old(self).spec_signature(),
            final(self).spec_name() == old(self).spec_name(),
            final(self).spec_detour() == old(self).spec_detour(),
            old(self).spec_target() is Some && outcome is Ok ==> final(self).spec_state() == if on {
                HookState::Enabled
            } else {
                HookState::Disabled
            },
            old(self).spec_target() is None || outcome is Err ==> final(self).spec_state()
                == old(self).spec_state(),
            old(self).spec_target() is None ==> r == Err::<(), HookError>(HookError::NotInstalled),
            old(self).spec_target() is Some ==> match outcome {
                Ok(_) => r is Ok,
                Err(code) => r == Err::<(), HookError>(HookError::Engine(code)),
            },
    {
        proof {
            old(self).lemma_with_state(HookState::Enabled);
            old(self).lemma_with_state(HookState::Disabled);
        }
        if self.target.is_none() {
            return Err(HookError::NotInstalled);
        }
        match outcome {
            Ok(()) => {
                self.state = if on {
                    HookState::Enabled
                } else {
                    HookState::Disabled
                };
                Ok(())
            },
            Err(code) => Err(HookError::Engine(code)),
        }
    }
}

} // verus!
