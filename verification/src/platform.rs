use vstd::prelude::*;

verus! {

/// The runtime platform that a build targets.
#[derive(Debug, Clone, Copy, PartialEq, Eq, Structural)]
pub enum RuntimePlatform {
    Macos,
    Windows,
    Ios,
    Android,
}

/// Compression ratio requested for an asset; resolved to a concrete
/// format during the build.
#[derive(Debug, Clone, Copy, PartialEq, Eq, Structural)]
pub enum Compression {
    Uncompressed,
    LowQuality,
    HighQuality,
}

impl RuntimePlatform {
    /// Human-readable platform name.
    pub fn name(&self) -> (r: &'static str)
        ensures
            self is Macos ==> r@ == "macOS"@,
            self is Windows ==> r@ == "Windows"@,
            self is Ios ==> r@ == "iOS"@,
            self is Android ==> r@ == "Android"@,
    {
        match self {
            RuntimePlatform::Macos => "macOS",
            RuntimePlatform::Windows => "Windows",
            RuntimePlatform::Ios => "iOS",
            RuntimePlatform::Android => "Android",
        }
    }
}

} // verus!
