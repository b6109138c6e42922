//! Errors of the just-in-time compiler, and their messages.
use vstd::prelude::*;
use vstd::string::StringExecFns;

use crate::text::{push_unsigned_decimal, string_from_chars, unsigned_decimal};

verus! {

#[verifier::external_type_specification]
#[verifier::external_body]
pub struct ExModuleError(cranelift_module::ModuleError);

#[verifier::external_type_specification]
#[verifier::external_body]
pub struct ExCodegenError(cranelift::codegen::CodegenError);

/// Why a script could not be compiled.
#[derive(Debug)]
pub enum CompileError {
    Reference(ReferenceError),
    Unsupported(UnsupportedError),
    Module(Box<CompileModuleError>),
    Settings(SettingsError),
    Codegen(CompileCodegenError),
    Internal(InternalError),
}

/// An error of the code generator's module.
#[derive(Debug)]
pub enum CompileModuleError {
    Cranelift(cranelift_module::ModuleError),
}

/// The host cannot run generated code.
#[derive(Debug)]
pub enum CompileCodegenError {
    HostUnsupported,
    SupportDisabled,
    MissingCpuFeature { feature: &'static str },
    BuildIsa(cranelift::codegen::CodegenError),
}

/// A name that nothing binds.
#[derive(Debug, PartialEq)]
pub enum ReferenceError {
    Unknown { name: String },
}

/// A construct that the compiler does not handle.
#[derive(Debug, PartialEq)]
pub enum UnsupportedError {
    LambdaArity { found: usize },
    LambdaNotCollected,
}

/// A code generator setting that was refused.
#[derive(Debug, PartialEq)]
pub enum SettingsError {
    BadName { name: String },
    BadType,
    BadValue { value: String },
}

/// A broken invariant of the compiler's own bookkeeping.
#[derive(Debug, PartialEq)]
pub enum InternalError {
    EnvScopeStackUnderflow,
    EnvBindingStackUnderflow,
}

pub open spec fn reference_message(e: ReferenceError) -> Seq<char> {
    match e {
        ReferenceError::Unknown { name } => "unknown reference: "@ + name@,
    }
}

pub open spec fn unsupported_message(e: UnsupportedError) -> Seq<char> {
    match e {
        UnsupportedError::LambdaArity { found } => "only single-parameter lambdas are supported (found "@
            + unsigned_decimal(found as nat) + ")"@,
        UnsupportedError::LambdaNotCollected => "lambda not collected"@,
    }
}

pub open spec fn settings_message(e: SettingsError) -> Seq<char> {
    match e {
        SettingsError::BadName { name } => "no setting named '"@ + name@ + "'"@,
        SettingsError::BadType => "wrong type for setting"@,
        SettingsError::BadValue { value } => "invalid value for setting: "@ + value@,
    }
}

pub open spec fn internal_message(e: InternalError) -> Seq<char> {
    match e {
        InternalError::EnvScopeStackUnderflow => "env scope stack underflow"@,
        InternalError::EnvBindingStackUnderflow => "env binding stack underflow"@,
    }
}

impl ReferenceError {
    /// The error's message.
    pub fn message(&self) -> (s: String)
        ensures
            s@ == reference_message(*self),
    {
        match self {
            ReferenceError::Unknown { name } => {
                let mut s = String::from_str("unknown reference: ");
                s.append(name.as_str());
                s
            },
        }
    }
}

impl UnsupportedError {
    /// The error's message.
    pub fn message(&self) -> (s: String)
        ensures
            s@ == unsupported_message(*self),
    {
        match self {
            UnsupportedError::LambdaArity { found } => {
                let mut digits: Vec<char> = Vec::new();
                push_unsigned_decimal(*found as u64, &mut digits);
                assert(digits@ =~= unsigned_decimal(*found as nat));
                let count = string_from_chars(digits.as_slice());
                let mut s = String::from_str("only single-parameter lambdas are supported (found ");
                s.append(count.as_str());
                s.append(")");
                s
            },
            UnsupportedError::LambdaNotCollected => String::from_str("lambda not collected"),
        }
    }
}

impl SettingsError {
    /// The error's message.
    pub fn message(&self) -> (s: String)
        ensures
            s@ == settings_message(*self),
    {
        match self {
            SettingsError::BadName { name } => {
                let mut s = String::from_str("no setting named '");
                s.append(name.as_str());
                s.append("'");
                s
            },
            SettingsError::BadType => String::from_str("wrong type for setting"),
            SettingsError::BadValue { value } => {
                let mut s = String::from_str("invalid value for setting: ");
                s.append(value.as_str());
                s
            },
        }
    }
}

impl InternalError {
    /// The error's message.
    pub fn message(&self) -> (s: String)
        ensures
            s@ == internal_message(*self),
    {
        match self {
            InternalError::EnvScopeStackUnderflow => String::from_str("env scope stack underflow"),
            InternalError::EnvBindingStackUnderflow => String::from_str(
                "env binding stack underflow",
            ),
        }
    }
}

pub open spec fn codegen_message(e: CompileCodegenError) -> Option<Seq<char>> {
    match e {
        CompileCodegenError::HostUnsupported => Some("host architecture is unsupported"@),
        CompileCodegenError::SupportDisabled => Some("support for host architecture is disabled"@),
        CompileCodegenError::MissingCpuFeature { feature } => Some(
            "missing required CPU feature: "@ + feature@,
        ),
        CompileCodegenError::BuildIsa(_) => None,
    }
}

/// What cranelift-module's `ModuleError` writes through `Display`. Nothing
/// is stated of the text: it is the outside crate's own wording.
#[verifier::external_body]
fn module_error_text(e: &cranelift_module::ModuleError) -> String {
    e.to_string()
}

/// What cranelift-codegen's `CodegenError` writes through `Display`. Nothing
/// is stated of the text: it is the outside crate's own wording.
#[verifier::external_body]
fn codegen_error_text(e: &cranelift::codegen::CodegenError) -> String {
    e.to_string()
}

impl CompileCodegenError {
    /// The error's message; that of a failed ISA build is the code
    /// generator's own.
    pub fn message(&self) -> (s: String)
        ensures
            codegen_message(*self) matches Some(m) ==> s@ == m,
    {
        match self {
            CompileCodegenError::HostUnsupported => String::from_str("host architecture is unsupported"),
            CompileCodegenError::SupportDisabled => String::from_str(
                "support for host architecture is disabled",
            ),
            CompileCodegenError::MissingCpuFeature { feature } => {
                let mut s = String::from_str("missing required CPU feature: ");
                s.append(feature);
                s
            },
            CompileCodegenError::BuildIsa(e) => codegen_error_text(e),
        }
    }
}

impl CompileError {
    /// The message of the error that this one carries; that of an error of
    /// the code generator's module, or of a failed ISA build, is the code
    /// generator's own.
    pub fn message(&self) -> (s: String)
        ensures
            match self {
                CompileError::Reference(e) => s@ == reference_message(*e),
                CompileError::Unsupported(e) => s@ == unsupported_message(*e),
                CompileError::Settings(e) => s@ == settings_message(*e),
                CompileError::Internal(e) => s@ == internal_message(*e),
                CompileError::Codegen(e) => codegen_message(*e) matches Some(m) ==> s@ == m,
                CompileError::Module(_) => true,
            },
    {
        match self {
            CompileError::Reference(e) => e.message(),
            CompileError::Unsupported(e) => e.message(),
            CompileError::Settings(e) => e.message(),
            CompileError::Internal(e) => e.message(),
            CompileError::Codegen(e) => e.message(),
            CompileError::Module(m) => match &**m {
                CompileModuleError::Cranelift(e) => module_error_text(e),
            },
        }
    }
}

impl From<ReferenceError> for CompileError {
    fn from(err: ReferenceError) -> (r: CompileError) {
        CompileError::Reference(err)
    }
}

impl vstd::std_specs::convert::FromSpecImpl<ReferenceError> for CompileError {
    open spec fn obeys_from_spec() -> bool {
        true
    }

    open spec fn from_spec(v: ReferenceError) -> CompileError {
        CompileError::Reference(v)
    }
}

impl From<UnsupportedError> for CompileError {
    fn from(err: UnsupportedError) -> (r: CompileError) {
        CompileError::Unsupported(err)
    }
}

impl vstd::std_specs::convert::FromSpecImpl<UnsupportedError> for CompileError {
    open spec fn obeys_from_spec() -> bool {
        true
    }

    open spec fn from_spec(v: UnsupportedError) -> CompileError {
        CompileError::Unsupported(v)
    }
}

impl From<CompileModuleError> for CompileError {
    fn from(err: CompileModuleError) -> (r: CompileError) {
        CompileError::Module(Box::new(err))
    }
}

impl vstd::std_specs::convert::FromSpecImpl<CompileModuleError> for CompileError {
    open spec fn obeys_from_spec() -> bool {
        true
    }

    open spec fn from_spec(v: CompileModuleError) -> CompileError {
        CompileError::Module(Box::new(v))
    }
}

impl From<SettingsError> for CompileError {
    fn from(err: SettingsError) -> (r: CompileError) {
        CompileError::Settings(err)
    }
}

impl vstd::std_specs::convert::FromSpecImpl<SettingsError> for CompileError {
    open spec fn obeys_from_spec() -> bool {
        true
    }

    open spec fn from_spec(v: SettingsError) -> CompileError {
        CompileError::Settings(v)
    }
}

impl From<CompileCodegenError> for CompileError {
    fn from(err: CompileCodegenError) -> (r: CompileError) {
        CompileError::Codegen(err)
    }
}

impl vstd::std_specs::convert::FromSpecImpl<CompileCodegenError> for CompileError {
    open spec fn obeys_from_spec() -> bool {
        true
    }

    open spec fn from_spec(v: CompileCodegenError) -> CompileError {
        CompileError::Codegen(v)
    }
}

impl From<InternalError> for CompileError {
    fn from(err: InternalError) -> (r: CompileError) {
        CompileError::Internal(err)
    }
}

impl vstd::std_specs::convert::FromSpecImpl<InternalError> for CompileError {
    open spec fn obeys_from_spec() -> bool {
        true
    }

    open spec fn from_spec(v: InternalError) -> CompileError {
        CompileError::Internal(v)
    }
}

impl From<cranelift_module::ModuleError> for CompileError {
    fn from(err: cranelift_module::ModuleError) -> (r: CompileError) {
        CompileError::Module(Box::new(CompileModuleError::Cranelift(err)))
    }
}

impl vstd::std_specs::convert::FromSpecImpl<cranelift_module::ModuleError> for CompileError {
    open spec fn obeys_from_spec() -> bool {
        true
    }

    open spec fn from_spec(v: cranelift_module::ModuleError) -> CompileError {
        CompileError::Module(Box::new(CompileModuleError::Cranelift(v)))
    }
}

impl From<cranelift::codegen::CodegenError> for CompileError {
    fn from(err: cranelift::codegen::CodegenError) -> (r: CompileError) {
        CompileError::Codegen(CompileCodegenError::BuildIsa(err))
    }
}

impl vstd::std_specs::convert::FromSpecImpl<cranelift::codegen::CodegenError> for CompileError {
    open spec fn obeys_from_spec() -> bool {
        true
    }

    open spec fn from_spec(v: cranelift::codegen::CodegenError) -> CompileError {
        CompileError::Codegen(CompileCodegenError::BuildIsa(v))
    }
}

} // verus!
