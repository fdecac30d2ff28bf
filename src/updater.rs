use vstd::prelude::*;
use crate::text::{chars_of, has_run, str_has, str_is};

verus! {

/// Operating systems that updates are published for.
#[derive(Clone, Copy, Debug, PartialEq, Eq, Structural)]
pub enum OS {
    Macos,
    Windows,
}

/// Processor architectures that updates are published for.
#[derive(Clone, Copy, Debug, PartialEq, Eq, Structural)]
pub enum Arch {
    X86_64,
    Arm64,
}

/// The platform an update is chosen for.
#[derive(Clone, Copy, Debug, PartialEq, Eq, Structural)]
pub struct SystemInfo {
    pub os: OS,
    pub arch: Arch,
}

/// Kinds of update packages.
#[derive(Clone, Copy, Debug, PartialEq, Eq, Structural)]
pub enum BundleType {
    MacOSAppZip,
    MacOSDMG,
    WindowsMSI,
    WindowsSetUp,
}

/// Why the updater cannot go on.
#[derive(Clone, Copy, Debug, PartialEq, Eq, Structural)]
pub enum UpdaterError {
    UnsupportedOs,
    UnsupportedArch,
    FailedToDetermineExtractPath,
}

pub open spec fn os_key(o: OS) -> Seq<char> {
    match o {
        OS::Macos => "macos"@,
        OS::Windows => "windows"@,
    }
}

pub open spec fn arch_key(a: Arch) -> Seq<char> {
    match a {
        Arch::X86_64 => "x86_64"@,
        Arch::Arm64 => "arm64"@,
    }
}

impl OS {
    /// The name used in release assets.
    pub fn name(&self) -> (r: &'static str)
        ensures
            r@ == os_key(*self),
    {
        match self {
            OS::Macos => "macos",
            OS::Windows => "windows",
        }
    }
}

impl Arch {
    /// The name used in release assets.
    pub fn name(&self) -> (r: &'static str)
        ensures
            r@ == arch_key(*self),
    {
        match self {
            Arch::X86_64 => "x86_64",
            Arch::Arm64 => "arm64",
        }
    }
}

impl SystemInfo {
    /// The platform for a target operating system and architecture as Rust
    /// names them (`"macos"`, `"windows"`; `"x86_64"`, `"aarch64"`).
    pub fn from_target(os: &str, arch: &str) -> (r: Result<SystemInfo, UpdaterError>)
        ensures
            os@ != "macos"@ && os@ != "windows"@ ==> r == Err::<SystemInfo, UpdaterError>(
                UpdaterError::UnsupportedOs,
            ),
            (os@ == "macos"@ || os@ == "windows"@) && arch@ != "x86_64"@ && arch@ != "aarch64"@
                ==> r == Err::<SystemInfo, UpdaterError>(UpdaterError::UnsupportedArch),
            (os@ == "macos"@ || os@ == "windows"@) && (arch@ == "x86_64"@ || arch@ == "aarch64"@)
                ==> r == Ok::<SystemInfo, UpdaterError>(
                SystemInfo {
                    os: if os@ == "macos"@ {
                        OS::Macos
                    } else {
                        OS::Windows
                    },
                    arch: if arch@ == "x86_64"@ {
                        Arch::X86_64
                    } else {
                        Arch::Arm64
                    },
                },
            ),
    {
        let o = chars_of(os);
        let a = chars_of(arch);
        let os = if str_is(&o, "macos") {
            OS::Macos
        } else if str_is(&o, "windows") {
            OS::Windows
        } else {
            return Err(UpdaterError::UnsupportedOs);
        };
        let arch = if str_is(&a, "x86_64") {
            Arch::X86_64
        } else if str_is(&a, "aarch64") {
            Arch::Arm64
        } else {
            return Err(UpdaterError::UnsupportedArch);
        };
        Ok(SystemInfo { os, arch })
    }
}

/// The directory part of a path, as `std::path::Path::parent` gives it.
pub uninterp spec fn parent_of(p: Seq<char>) -> Option<Seq<char>>;

/// Relies on `std::path::Path::parent`: the path without its last
/// component, or `None` for a root or an empty path.
#[verifier::external_body]
fn parent_dir(p: &str) -> (r: Option<String>)
    ensures
        match r {
            Some(q) => parent_of(p@) == Some(q@),
            None => parent_of(p@) is None,
        },
{
    std::path::Path::new(p).parent().map(|q| q.to_string_lossy().into_owned())
}

/// Where an update is unpacked: the directory of the executable, or on
/// macOS, for an executable inside an application bundle
/// (`.../Contents/MacOS`), the directory holding the bundle.
pub open spec fn extract_path_of(exe: Seq<char>, os: OS) -> Option<Seq<char>> {
    match parent_of(exe) {
        None => None,
        Some(dir) => if os == OS::Macos && has_run(dir, "Contents/MacOS"@) {
            match parent_of(dir) {
                None => None,
                Some(d2) => parent_of(d2),
            }
        } else {
            Some(dir)
        },
    }
}

pub fn extract_path_from_executable(executable_path: &str, os: OS) -> (r: Result<String, UpdaterError>)
    ensures
        match extract_path_of(executable_path@, os) {
            Some(p) => r is Ok && r->Ok_0@ == p,
            None => r == Err::<String, UpdaterError>(UpdaterError::FailedToDetermineExtractPath),
        },
{
    let dir = match parent_dir(executable_path) {
        Some(d) => d,
        None => {
            return Err(UpdaterError::FailedToDetermineExtractPath);
        },
    };
    if os == OS::Macos && str_has(&chars_of(dir.as_str()), "Contents/MacOS") {
        let d2 = match parent_dir(dir.as_str()) {
            Some(d) => d,
            None => {
                return Err(UpdaterError::FailedToDetermineExtractPath);
            },
        };
        return match parent_dir(d2.as_str()) {
            Some(d) => Ok(d),
            None => Err(UpdaterError::FailedToDetermineExtractPath),
        };
    }
    Ok(dir)
}

} // verus!
