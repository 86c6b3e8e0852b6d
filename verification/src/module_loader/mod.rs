//! Loading script modules: the options of the loader, module specifiers, and which
//! kind of module may import which.
use vstd::prelude::*;

pub mod specifier;

use crate::module_loader::specifier::ModuleType;

verus! {

/// What a module loader allows.
#[derive(Clone, Debug, PartialEq, Eq, Hash)]
pub struct Options {
    pub enable_imports: bool,
}

/// How an import is resolved.
#[derive(Clone, Copy, Debug, PartialEq, Eq, Structural)]
pub enum ImportDecision {
    /// A file imports a file: the specifier is resolved against the referrer.
    ResolveRelative,
    /// The specifier's URL is taken as it is (a built-in module).
    UseSpecifier,
    /// The import is refused, for this reason.
    Refused(ImportRefusal),
}

/// Why an import is refused.
#[derive(Clone, Copy, Debug, PartialEq, Eq, Structural)]
pub enum ImportRefusal {
    FileImportsMemory,
    BuiltinImportsNonBuiltin,
    MemoryImportsFile,
    MemoryImportsMemory,
    MemoryImportsOther,
}

impl ImportRefusal {
    pub fn message(&self) -> (r: &'static str)
        ensures
            r@ == match self {
                ImportRefusal::FileImportsMemory => "File module can not import memory module"@,
                ImportRefusal::BuiltinImportsNonBuiltin =>
                    "Builtin module can only import builtin module"@,
                ImportRefusal::MemoryImportsFile => "Memory module can not request file module"@,
                ImportRefusal::MemoryImportsMemory =>
                    "Memory module can not import memory module"@,
                ImportRefusal::MemoryImportsOther =>
                    "Memory module can not load any other module"@,
            },
    {
        match self {
            ImportRefusal::FileImportsMemory => "File module can not import memory module",
            ImportRefusal::BuiltinImportsNonBuiltin => "Builtin module can only import builtin module",
            ImportRefusal::MemoryImportsFile => "Memory module can not request file module",
            ImportRefusal::MemoryImportsMemory => "Memory module can not import memory module",
            ImportRefusal::MemoryImportsOther => "Memory module can not load any other module",
        }
    }
}

/// Which kind of module may import which. A memory module loads no other module; a
/// built-in module loads only built-in modules; a file module loads files (resolved
/// against it) and built-in modules. Imports from import-map modules, and of them
/// by file modules, are not handled.
pub open spec fn import_rule(referrer: ModuleType, specifier: ModuleType) -> ImportDecision {
    match (referrer, specifier) {
        (ModuleType::Memory, ModuleType::File) => ImportDecision::Refused(
            ImportRefusal::MemoryImportsFile,
        ),
        (ModuleType::Memory, ModuleType::Memory) => ImportDecision::Refused(
            ImportRefusal::MemoryImportsMemory,
        ),
        (ModuleType::Memory, _) => ImportDecision::Refused(ImportRefusal::MemoryImportsOther),
        (ModuleType::File, ModuleType::File) => ImportDecision::ResolveRelative,
        (_, ModuleType::Builtin) => ImportDecision::UseSpecifier,
        (ModuleType::File, ModuleType::Memory) => ImportDecision::Refused(
            ImportRefusal::FileImportsMemory,
        ),
        (ModuleType::Builtin, _) => ImportDecision::Refused(
            ImportRefusal::BuiltinImportsNonBuiltin,
        ),
        _ => ImportDecision::Refused(ImportRefusal::BuiltinImportsNonBuiltin),
    }
}

/// Whether the loader handles an import from `referrer` of `specifier` at all.
pub open spec fn import_handled(referrer: ModuleType, specifier: ModuleType) -> bool {
    referrer != ModuleType::ImportMap && !(referrer == ModuleType::File && specifier
        == ModuleType::ImportMap)
}

/// How an import from a module of kind `referrer` of one of kind `specifier` resolves.
pub fn import_decision(referrer: ModuleType, specifier: ModuleType) -> (r: ImportDecision)
    requires
        import_handled(referrer, specifier),
    ensures
        r == import_rule(referrer, specifier),
{
    match referrer {
        ModuleType::File => match specifier {
            ModuleType::File => ImportDecision::ResolveRelative,
            ModuleType::Builtin => ImportDecision::UseSpecifier,
            ModuleType::Memory => ImportDecision::Refused(ImportRefusal::FileImportsMemory),
            ModuleType::ImportMap => unreached(),
        },
        ModuleType::Builtin => match specifier {
            ModuleType::Builtin => ImportDecision::UseSpecifier,
            _ => ImportDecision::Refused(ImportRefusal::BuiltinImportsNonBuiltin),
        },
        ModuleType::Memory => match specifier {
            ModuleType::File => ImportDecision::Refused(ImportRefusal::MemoryImportsFile),
            ModuleType::Memory => ImportDecision::Refused(ImportRefusal::MemoryImportsMemory),
            _ => ImportDecision::Refused(ImportRefusal::MemoryImportsOther),
        },
        ModuleType::ImportMap => unreached(),
    }
}

/// A memory module loads no other module.
pub proof fn law_memory_imports_nothing(specifier: ModuleType)
    ensures
        import_rule(ModuleType::Memory, specifier) is Refused,
        import_handled(ModuleType::Memory, specifier),
{
}

/// A built-in module imports nothing but built-in modules.
pub proof fn law_builtin_imports_only_builtin(specifier: ModuleType)
    ensures
        import_rule(ModuleType::Builtin, specifier) is UseSpecifier <==> specifier
            == ModuleType::Builtin,
        import_rule(ModuleType::Builtin, specifier) is ResolveRelative ==> false,
{
}

} // verus!
