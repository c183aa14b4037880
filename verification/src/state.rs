//! The instance-wide model state: at most one loaded model, observed either
//! as unloaded or as fully loaded.  A model is constructed completely off to
//! the side and swapped in as one value, so no caller ever sees a
//! half-initialized model.

use vstd::prelude::*;
use crate::format::{parse_model, LoadError};
use crate::loader::load;
use crate::model::{model_wf, ModelWeights, TensorView};

verus! {

/// Holds at most one loaded model.  One value of this type exists per
/// instance; all operations run on the instance's single thread.
pub struct ModelState {
    loaded: Option<ModelWeights>,
}

impl ModelState {
    /// The observable state: the loaded model's tensors, or `None` when
    /// unloaded.
    pub closed spec fn model(&self) -> Option<Seq<TensorView>> {
        match self.loaded {
            Some(w) => Some(w@),
            None => None,
        }
    }

    /// Any loaded model is well formed.
    pub open spec fn wf(&self) -> bool {
        match self.model() {
            Some(m) => model_wf(m),
            None => true,
        }
    }

    /// The initial, unloaded state.
    pub fn new() -> (s: Self)
        ensures
            s.model() is None,
            s.wf(),
    {
        ModelState { loaded: None }
    }

    /// A pure read of the current state: the loaded weights, or `None`.
    pub fn get_state(&self) -> (r: Option<&ModelWeights>)
        ensures
            match r {
                Some(w) => self.model() == Some(w@),
                None => self.model() is None,
            },
    {
        match &self.loaded {
            Some(w) => Some(w),
            None => None,
        }
    }

    /// Replaces any loaded model with `weights`; the prior model, if any, is
    /// dropped.
    pub fn set_state(&mut self, weights: ModelWeights)
        requires
            model_wf(weights@),
        ensures
            final(self).model() == Some(weights@),
            final(self).wf(),
    {
        self.loaded = Some(weights);
    }

    /// Returns to the unloaded state, dropping any held model.
    pub fn clear_state(&mut self)
        ensures
            final(self).model() is None,
            final(self).wf(),
    {
        self.loaded = None;
    }

    /// Parses `buffer` and, only on success, swaps the parsed model in.
    ///
    /// All-or-nothing: on any error the previously loaded model, if any,
    /// stays in place untouched, so a failed load never costs a working
    /// model.
    pub fn load(&mut self, buffer: &Vec<u8>) -> (r: Result<(), LoadError>)
        requires
            old(self).wf(),
        ensures
            final(self).wf(),
            match r {
                Ok(()) => parse_model(buffer@) matches Ok(m) && final(self).model() == Some(m),
                Err(e) => parse_model(buffer@) == Err::<Seq<TensorView>, LoadError>(e)
                    && final(self).model() == old(self).model(),
            },
    {
        match load(buffer) {
            Ok(w) => {
                self.set_state(w);
                Ok(())
            },
            Err(e) => Err(e),
        }
    }
}

} // verus!
