use vstd::prelude::*;

verus! {

/// Lowering target of `mlir-translate`.
#[derive(Debug, Clone, Copy, PartialEq, Eq, Structural)]
pub enum Target {
    Llvm,
    Wasm,
}

impl Target {
    /// Parses `"llvm"` or `"wasm"`; anything else is no target.
    pub fn from_str(s: &str) -> (t: Option<Self>)
        ensures
            s@ == "llvm"@ ==> t == Some(Target::Llvm),
            s@ == "wasm"@ ==> t == Some(Target::Wasm),
            s@ != "llvm"@ && s@ != "wasm"@ ==> t is None,
    {
        proof {
            reveal_strlit("llvm");
            reveal_strlit("wasm");
            assert("wasm"@[0] != "llvm"@[0]);
        }
        let o = s.to_owned();
        let llvm = "llvm".to_owned();
        let wasm = "wasm".to_owned();
        if o == llvm {
            Some(Target::Llvm)
        } else if o == wasm {
            Some(Target::Wasm)
        } else {
            None
        }
    }

    /// The `mlir-translate` flag that selects this target.
    pub fn translate_flag(&self) -> (f: &'static str)
        ensures
            *self == Target::Llvm ==> f@ == "--mlir-to-llvmir"@,
            *self == Target::Wasm ==> f@ == "--mlir-to-wasm"@,
    {
        proof {
            reveal_strlit("--mlir-to-llvmir");
            reveal_strlit("--mlir-to-wasm");
        }
        match self {
            Target::Llvm => "--mlir-to-llvmir",
            Target::Wasm => "--mlir-to-wasm",
        }
    }
}

} // verus!
