use vstd::prelude::*;

verus! {

#[verifier::external_type_specification]
#[verifier::external_body]
pub struct ExWasmEngine(wasmi::Engine);

#[verifier::external_type_specification]
#[verifier::external_body]
pub struct ExWasmModule(wasmi::Module);

#[verifier::external_type_specification]
#[verifier::external_body]
pub struct ExWasmError(wasmi::Error);

/// Names whether an engine of the default configuration accepts `bytes` as a module.
pub uninterp spec fn wasm_module_accepted(bytes: Seq<u8>) -> bool;

/// Calls `wasmi::Engine::default`. Nothing is claimed of the engine it makes.
#[verifier::external_body]
fn new_default_engine() -> wasmi::Engine {
    wasmi::Engine::default()
}

/// Calls `wasmi::Module::new` on the bytes with an engine of the default configuration.
/// Trusted: the call succeeds exactly when `wasm_module_accepted` holds of the bytes; its
/// outcome depends on the bytes and on the engine's configuration, and every `WasmEngine`
/// has the default one.
#[verifier::external_body]
fn parse_wasm_module(engine: &WasmEngine, bytes: &[u8]) -> (r: Result<wasmi::Module, wasmi::Error>)
    ensures
        r is Ok <==> wasm_module_accepted(bytes@),
{
    wasmi::Module::new(&engine.engine, bytes)
}

/// A WebAssembly engine with the default configuration.
pub struct WasmEngine {
    engine: wasmi::Engine,
}

/// Why a WebAssembly binary could not be loaded.
#[derive(Debug, Clone, Copy, PartialEq, Eq, Structural)]
pub enum WasmLoadError {
    /// The bytes are not a module that the engine accepts.
    InvalidModule,
}

impl WasmEngine {
    /// A new engine with the default configuration.
    pub fn new() -> (e: WasmEngine) {
        WasmEngine { engine: new_default_engine() }
    }

    /// The engine, for building stores and linkers over the modules it loads.
    pub fn engine(&self) -> &wasmi::Engine {
        &self.engine
    }

    /// Parses the bytes of a WebAssembly binary into a module of this engine.
    pub fn load_module(&self, wasm: &[u8]) -> (r: Result<wasmi::Module, WasmLoadError>)
        ensures
            r is Ok <==> wasm_module_accepted(wasm@),
            r is Err ==> r == Err::<wasmi::Module, WasmLoadError>(WasmLoadError::InvalidModule),
    {
        match parse_wasm_module(self, wasm) {
            Ok(module) => Ok(module),
            Err(_) => Err(WasmLoadError::InvalidModule),
        }
    }
}

} // verus!
