//! The choices a driver around the compiler offers: which linker to invoke,
//! and where the output artifact goes.

use vstd::prelude::*;

verus! {

/// A linker the driver can be told to use for producing an executable.
#[derive(Clone, Copy, Debug, PartialEq, Eq, Structural)]
pub enum Linker {
    /// LLVM's C-compiler front end.
    Clang,
    /// The GNU Compiler Collection.
    Gcc,
    /// MSVC's linker.
    Link,
    /// The GNU linker, called directly.
    Ld,
    /// LLVM's linker.
    Lld,
}

/// The executable name each linker choice stands for.
pub open spec fn linker_name(l: Linker) -> Seq<char> {
    match l {
        Linker::Clang => "clang"@,
        Linker::Gcc => "gcc"@,
        Linker::Link => "link"@,
        Linker::Ld => "ld"@,
        Linker::Lld => "lld"@,
    }
}

impl Linker {
    /// The name of the executable to invoke for this choice.
    pub fn to_string(&self) -> (r: &'static str)
        ensures
            r@ == linker_name(*self),
    {
        match self {
            Linker::Clang => "clang",
            Linker::Gcc => "gcc",
            Linker::Link => "link",
            Linker::Ld => "ld",
            Linker::Lld => "lld",
        }
    }
}

/// The path the output artifact goes to: the path the user asked for, if it
/// is usable, else the default name. `exists` and `is_file` report what the
/// file system says of the asked-for path; the caller owns that probing. A
/// path that exists and is no file is handed back as the error.
pub fn get_output_path(path: Option<String>, exists: bool, is_file: bool, default: &str) -> (r:
    Result<String, String>)
    ensures
        match path {
            Some(p) => if is_file || !exists {
                r == Ok::<String, String>(p)
            } else {
                r == Err::<String, String>(p)
            },
            None => r is Ok && r->Ok_0@ == default@,
        },
{
    match path {
        Some(p) => if is_file || !exists {
            Ok(p)
        } else {
            Err(p)
        },
        None => Ok(default.to_owned()),
    }
}

} // verus!
