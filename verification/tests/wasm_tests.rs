use fhos::wasm::{WasmEngine, WasmLoadError};

#[test]
fn empty_module_loads() {
    let engine = WasmEngine::new();
    let bytes = [0x00u8, 0x61, 0x73, 0x6D, 0x01, 0x00, 0x00, 0x00];
    assert!(engine.load_module(&bytes).is_ok());
}

#[test]
fn garbage_is_rejected() {
    let engine = WasmEngine::new();
    assert_eq!(engine.load_module(b"not wasm").err(), Some(WasmLoadError::InvalidModule));
    assert_eq!(engine.load_module(&[]).err(), Some(WasmLoadError::InvalidModule));
}
