use vstd::prelude::*;
use tree_sitter::{Language, Parser, Tree};

verus! {

/// Whether the multiplicity regulators have been applied to a tensor derivative loop.
#[derive(Debug, Clone, Copy, PartialEq, Eq, Structural)]
pub enum TensorStatus {
    Unbounded,
    RegulatorApplied,
}

/// The components of the tensor equation
/// `∂Ψ/∂t = Λ_m Ξ(t) [A Ψ + B ∫ I dτ + T ⊗ Ψ ⊗ Ψ + Q ∇²Ψ] + E(t)` that the compiler checks.
#[derive(Debug, Clone, Copy, PartialEq, Eq)]
pub struct TensorDerivativeNode {
    pub lambda_m_present: bool,
    pub xi_t_present: bool,
    /// The noise term `E(t)` stands outside the regulated block.
    pub noise_isolated: bool,
    pub status: TensorStatus,
}

pub open spec fn regulators_text() -> Seq<char> {
    "Compilation failed: Multiplicity regulators (Λ_m, Ξ(t)) are missing from the tensor derivative loop."@
}

pub open spec fn noise_text() -> Seq<char> {
    "Compilation failed: The stochastic noise term E(t) must be structurally isolated outside of the regulator's domain."@
}

/// Outcome of checking a tensor derivative node: both regulators first, then the noise
/// isolation; a passing node becomes `RegulatorApplied`, a failing one is left as it was.
pub open spec fn tensor_verdict(n: TensorDerivativeNode) -> (Result<(), Seq<char>>, TensorDerivativeNode) {
    if !n.lambda_m_present || !n.xi_t_present {
        (Err(regulators_text()), n)
    } else if !n.noise_isolated {
        (Err(noise_text()), n)
    } else {
        (Ok(()), TensorDerivativeNode { status: TensorStatus::RegulatorApplied, ..n })
    }
}

pub open spec fn fresh_tensor_node() -> TensorDerivativeNode {
    TensorDerivativeNode {
        lambda_m_present: false,
        xi_t_present: false,
        noise_isolated: false,
        status: TensorStatus::Unbounded,
    }
}

pub open spec fn str_result_view(r: Result<(), &'static str>) -> Result<(), Seq<char>> {
    match r {
        Ok(()) => Ok(()),
        Err(s) => Err(s@),
    }
}

impl TensorDerivativeNode {
    pub fn new() -> (n: Self)
        ensures
            n == fresh_tensor_node(),
    {
        Self { lambda_m_present: false, xi_t_present: false, noise_isolated: false, status: TensorStatus::Unbounded }
    }

    /// Records which regulators the loop carries.
    pub fn parse_regulators(&mut self, has_lambda: bool, has_xi: bool)
        ensures
            *final(self) == (TensorDerivativeNode {
                lambda_m_present: has_lambda,
                xi_t_present: has_xi,
                ..*old(self)
            }),
    {
        self.lambda_m_present = has_lambda;
        self.xi_t_present = has_xi;
    }

    /// Moves the noise term outside the regulated block.
    pub fn isolate_noise(&mut self)
        ensures
            *final(self) == (TensorDerivativeNode { noise_isolated: true, ..*old(self) }),
    {
        self.noise_isolated = true;
    }

    /// Enforces the tensor representation rules.
    pub fn compile_and_verify(&mut self) -> (r: Result<(), &'static str>)
        ensures
            (str_result_view(r), *final(self)) == tensor_verdict(*old(self)),
    {
        proof {
            reveal_strlit(
                "Compilation failed: Multiplicity regulators (Λ_m, Ξ(t)) are missing from the tensor derivative loop.",
            );
            reveal_strlit(
                "Compilation failed: The stochastic noise term E(t) must be structurally isolated outside of the regulator's domain.",
            );
        }
        if !self.lambda_m_present || !self.xi_t_present {
            return Err(
                "Compilation failed: Multiplicity regulators (Λ_m, Ξ(t)) are missing from the tensor derivative loop.",
            );
        }
        if !self.noise_isolated {
            return Err(
                "Compilation failed: The stochastic noise term E(t) must be structurally isolated outside of the regulator's domain.",
            );
        }
        self.status = TensorStatus::RegulatorApplied;
        Ok(())
    }
}

/// A fresh node with the given regulators, and the noise isolated if `isolated`, compiles
/// exactly when all three hold; it then becomes `RegulatorApplied`, and otherwise stays
/// `Unbounded`.
pub proof fn law_tensor_compiler_enforcement(has_lambda: bool, has_xi: bool, isolated: bool)
    ensures
        ({
            let n = TensorDerivativeNode {
                lambda_m_present: has_lambda,
                xi_t_present: has_xi,
                noise_isolated: isolated,
                ..fresh_tensor_node()
            };
            let (r, after) = tensor_verdict(n);
            &&& (r is Ok <==> has_lambda && has_xi && isolated)
            &&& (r is Ok ==> after.status == TensorStatus::RegulatorApplied)
            &&& (r is Err ==> after.status == TensorStatus::Unbounded)
        }),
{
}

/// Compilation state of a self-referential block.
#[derive(Debug, Clone, Copy, PartialEq, Eq, Structural)]
pub enum TNNCompilationState {
    Invalid,
    BoundVerified,
}

/// A tensor network layer or adaptive learning step, as the compiler checks it.
#[derive(Debug, Clone, Copy, PartialEq, Eq)]
pub struct SelfReferentialNode {
    pub has_lambda_m: bool,
    pub has_xi_t: bool,
    pub has_m_operator: bool,
    pub is_gradient_bounded: bool,
    pub state: TNNCompilationState,
}

pub open spec fn tnn_regulators_text() -> Seq<char> {
    "Compilation failed: Missing fundamental Multiplicity Regulators in the TNN layer block. All three (Λ_m, Ξ(t), M) must be present."@
}

pub open spec fn gradient_text() -> Seq<char> {
    "Compilation failed: Gradient projection (∇L) is geometrically unbounded and risks overflow. Explicit bounds must be strictly proven."@
}

/// Outcome of checking a self-referential node: all three regulators first, then the
/// gradient bound; a passing node becomes `BoundVerified`, a failing one is left as it was.
pub open spec fn tnn_verdict(n: SelfReferentialNode) -> (Result<(), Seq<char>>, SelfReferentialNode) {
    if !n.has_lambda_m || !n.has_xi_t || !n.has_m_operator {
        (Err(tnn_regulators_text()), n)
    } else if !n.is_gradient_bounded {
        (Err(gradient_text()), n)
    } else {
        (Ok(()), SelfReferentialNode { state: TNNCompilationState::BoundVerified, ..n })
    }
}

pub open spec fn fresh_tnn_node() -> SelfReferentialNode {
    SelfReferentialNode {
        has_lambda_m: false,
        has_xi_t: false,
        has_m_operator: false,
        is_gradient_bounded: false,
        state: TNNCompilationState::Invalid,
    }
}

impl SelfReferentialNode {
    pub fn new() -> (n: Self)
        ensures
            n == fresh_tnn_node(),
    {
        Self {
            has_lambda_m: false,
            has_xi_t: false,
            has_m_operator: false,
            is_gradient_bounded: false,
            state: TNNCompilationState::Invalid,
        }
    }

    /// Records which regulators the layer carries.
    pub fn parse_regulators(&mut self, lambda_m: bool, xi_t: bool, m_op: bool)
        ensures
            *final(self) == (SelfReferentialNode {
                has_lambda_m: lambda_m,
                has_xi_t: xi_t,
                has_m_operator: m_op,
                ..*old(self)
            }),
    {
        self.has_lambda_m = lambda_m;
        self.has_xi_t = xi_t;
        self.has_m_operator = m_op;
    }

    /// Bounds the layer's gradient.
    pub fn enforce_gradient_bound(&mut self)
        ensures
            *final(self) == (SelfReferentialNode { is_gradient_bounded: true, ..*old(self) }),
    {
        self.is_gradient_bounded = true;
    }

    /// Checks the structural bounds of the layer and moves it to `BoundVerified`.
    pub fn verify_ast_integrity(&mut self) -> (r: Result<(), &'static str>)
        ensures
            (str_result_view(r), *final(self)) == tnn_verdict(*old(self)),
    {
        proof {
            reveal_strlit(
                "Compilation failed: Missing fundamental Multiplicity Regulators in the TNN layer block. All three (Λ_m, Ξ(t), M) must be present.",
            );
            reveal_strlit(
                "Compilation failed: Gradient projection (∇L) is geometrically unbounded and risks overflow. Explicit bounds must be strictly proven.",
            );
        }
        if !self.has_lambda_m || !self.has_xi_t || !self.has_m_operator {
            return Err(
                "Compilation failed: Missing fundamental Multiplicity Regulators in the TNN layer block. All three (Λ_m, Ξ(t), M) must be present.",
            );
        }
        if !self.is_gradient_bounded {
            return Err(
                "Compilation failed: Gradient projection (∇L) is geometrically unbounded and risks overflow. Explicit bounds must be strictly proven.",
            );
        }
        self.state = TNNCompilationState::BoundVerified;
        Ok(())
    }
}

/// A fresh layer with the given regulators, and a bounded gradient if `bounded`, verifies
/// exactly when all four hold; it then becomes `BoundVerified`, and otherwise stays
/// `Invalid`.
pub proof fn law_tnn_compiler_bounds(lambda_m: bool, xi_t: bool, m_op: bool, bounded: bool)
    ensures
        ({
            let n = SelfReferentialNode {
                has_lambda_m: lambda_m,
                has_xi_t: xi_t,
                has_m_operator: m_op,
                is_gradient_bounded: bounded,
                ..fresh_tnn_node()
            };
            let (r, after) = tnn_verdict(n);
            &&& (r is Ok <==> lambda_m && xi_t && m_op && bounded)
            &&& (r is Ok ==> after.state == TNNCompilationState::BoundVerified)
            &&& (r is Err ==> after.state == TNNCompilationState::Invalid)
        }),
{
}


#[verifier::external_type_specification]
#[verifier::external_body]
pub struct ExLanguage(Language);

#[verifier::external_type_specification]
#[verifier::external_body]
pub struct ExParser(Parser);

#[verifier::external_type_specification]
#[verifier::external_body]
pub struct ExTree(Tree);

/// Calls `tree_sitter::Parser::new`: a parser with no language set.
#[verifier::external_body]
fn parser_new() -> (p: Parser) {
    Parser::new()
}

/// Calls `tree_sitter::Parser::set_language` and says whether the language was accepted.
/// When a language is refused (an incompatible grammar version) is left unsaid.
#[verifier::external_body]
fn parser_set_language(parser: &mut Parser, language: &Language) -> (accepted: bool) {
    parser.set_language(language).is_ok()
}

/// A compiler pass that bounds the tensor representation of a syntax tree.
pub struct TensorRepresentationCompiler {
    parser: Parser,
}

impl TensorRepresentationCompiler {
    /// A pass whose parser reads `language`; refused when the parser rejects the language.
    pub fn new(language: &Language) -> (r: Result<Self, &'static str>)
        ensures
            r matches Err(e) ==> e@ == "Failed to set tree-sitter language for PIRTM Tensor Compiler"@,
    {
        let mut parser = parser_new();
        if !parser_set_language(&mut parser, language) {
            return Err("Failed to set tree-sitter language for PIRTM Tensor Compiler");
        }
        Ok(TensorRepresentationCompiler { parser })
    }

    /// The tensor derivative node of the block, with both regulators present and the noise
    /// term isolated, verified.
    pub fn enforce_tensor_bounds(&self, _source: &str, _tree: &Tree) -> (r: Result<TensorDerivativeNode, &'static str>)
        ensures
            r matches Ok(n) && n.lambda_m_present && n.xi_t_present && n.noise_isolated && n.status
                == TensorStatus::RegulatorApplied,
    {
        let mut node = TensorDerivativeNode::new();
        node.parse_regulators(true, true);
        node.isolate_noise();
        node.compile_and_verify()?;
        Ok(node)
    }
}

/// Compiler of universal self-referential blocks.
pub struct UniversalSystemCompiler {
    parser: Parser,
}

impl UniversalSystemCompiler {
    /// A compiler whose parser reads `language`; refused when the parser rejects the language.
    pub fn new(language: &Language) -> (r: Result<Self, &'static str>)
        ensures
            r matches Err(e) ==> e@ == "Failed to set tree-sitter language for PIRTM Self-Referential Compiler"@,
    {
        let mut parser = parser_new();
        if !parser_set_language(&mut parser, language) {
            return Err("Failed to set tree-sitter language for PIRTM Self-Referential Compiler");
        }
        Ok(UniversalSystemCompiler { parser })
    }

    /// The layer of the block, with all three regulators present and its gradient bounded,
    /// verified.
    pub fn compile_self_referential_block(&self, _source: &str, _tree: &Tree) -> (r: Result<
        SelfReferentialNode,
        &'static str,
    >)
        ensures
            r matches Ok(n) && n.has_lambda_m && n.has_xi_t && n.has_m_operator && n.is_gradient_bounded
                && n.state == TNNCompilationState::BoundVerified,
    {
        let mut node = SelfReferentialNode::new();
        node.parse_regulators(true, true, true);
        node.enforce_gradient_bound();
        node.verify_ast_integrity()?;
        Ok(node)
    }
}

} // verus!
