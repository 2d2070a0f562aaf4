//! The model registry: validated model configurations, looked up by
//! every other component.
use crate::table::Table;
use crate::BrokerError;
use vstd::prelude::*;

verus! {

/// Configuration of one registered model.
#[derive(Clone, Copy, Debug, PartialEq, Eq, Structural)]
pub struct ModelConfig {
    pub model_id: u64,
    /// Largest accepted input payload, in bytes. Positive.
    pub input_size: u64,
    /// Advertised output size, in bytes. Positive.
    pub output_size: u64,
    /// Largest accepted batch, in inputs. Positive.
    pub batch_size: u64,
    /// Advertised compute-unit cost estimate.
    pub compute_units: u64,
    /// Only an active model accepts requests.
    pub is_active: bool,
    /// Whether requests for this model may be delegated off-chain.
    pub off_chain_enabled: bool,
    /// Time-to-live for cached results of this model, in seconds.
    pub cache_ttl: u64,
    /// Cost ceiling above which an eligible request goes off-chain.
    pub max_gas_limit: u64,
}

/// The validity invariant of a stored configuration: the size bounds
/// are positive.
pub open spec fn config_wf(c: ModelConfig) -> bool {
    c.input_size > 0 && c.output_size > 0 && c.batch_size > 0
}

/// The configuration that `register` stores for the given arguments:
/// always marked active.
pub open spec fn registered_config(
    model_id: u64,
    input_size: u64,
    output_size: u64,
    batch_size: u64,
    compute_units: u64,
    off_chain_enabled: bool,
    cache_ttl: u64,
    max_gas_limit: u64,
) -> ModelConfig {
    ModelConfig {
        model_id,
        input_size,
        output_size,
        batch_size,
        compute_units,
        is_active: true,
        off_chain_enabled,
        cache_ttl,
        max_gas_limit,
    }
}

/// Owns the model configurations, keyed by model id.
pub struct ModelRegistry {
    models: Table<ModelConfig>,
}

impl ModelRegistry {
    /// The registry as a map from model id to configuration.
    pub closed spec fn view(&self) -> Map<u64, ModelConfig> {
        self.models@
    }

    /// Every stored configuration is valid and keyed by its own id.
    pub closed spec fn wf(&self) -> bool {
        &&& self.models.wf()
        &&& forall|id: u64|
            self.models@.contains_key(id) ==> #[trigger] config_wf(self.models@[id])
                && self.models@[id].model_id == id
    }

    pub fn new() -> (r: ModelRegistry)
        ensures
            r.wf(),
            r@ =~= Map::<u64, ModelConfig>::empty(),
    {
        ModelRegistry { models: Table::new() }
    }

    /// Stores the configuration, overwriting any earlier one for the
    /// same id and always marking the model active. Re-registration is
    /// the only way to mutate a configuration.
    pub fn register(
        &mut self,
        model_id: u64,
        input_size: u64,
        output_size: u64,
        batch_size: u64,
        compute_units: u64,
        off_chain_enabled: bool,
        cache_ttl: u64,
        max_gas_limit: u64,
    )
        requires
            old(self).wf(),
            input_size > 0,
            output_size > 0,
            batch_size > 0,
        ensures
            final(self).wf(),
            final(self)@ =~= old(self)@.insert(
                model_id,
                registered_config(
                    model_id,
                    input_size,
                    output_size,
                    batch_size,
                    compute_units,
                    off_chain_enabled,
                    cache_ttl,
                    max_gas_limit,
                ),
            ),
    {
        let config = ModelConfig {
            model_id,
            input_size,
            output_size,
            batch_size,
            compute_units,
            is_active: true,
            off_chain_enabled,
            cache_ttl,
            max_gas_limit,
        };
        self.models.insert(model_id, config);
    }

    /// Looks a configuration up; fails with `ModelNotFound` exactly
    /// when no model is registered under the id.
    pub fn get(&self, model_id: u64) -> (r: Result<ModelConfig, BrokerError>)
        requires
            self.wf(),
        ensures
            match r {
                Ok(c) => self@.contains_key(model_id) && c == self@[model_id],
                Err(e) => !self@.contains_key(model_id) && e == BrokerError::ModelNotFound,
            },
    {
        match self.models.get(model_id) {
            Some(c) => Ok(*c),
            None => Err(BrokerError::ModelNotFound),
        }
    }
}

} // verus!
