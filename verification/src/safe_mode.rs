use vstd::prelude::*;

use crate::charclass::{to_lowercase_str, unicode_str_lowercase};
use crate::text::{owned, push_str, str_eq};

verus! {

/// Safe mode to use when processing the document, following the Asciidoctor
/// safe-mode levels. Levels are ordered from least to most restrictive.
#[derive(Debug, Clone, Copy, PartialEq, Eq, PartialOrd)]
pub enum SafeMode {
    /// Disables all security measures.
    Unsafe,
    /// Prevents access to files outside the parent directory of the source file.
    Safe,
    /// Disallows the document from setting attributes that affect conversion.
    Server,
    /// Disallows reading files from the file system and including their contents.
    Secure,
}

impl SafeMode {
    /// The position of this level in the order `Unsafe < Safe < Server < Secure`.
    pub open spec fn level(self) -> int {
        match self {
            SafeMode::Unsafe => 0,
            SafeMode::Safe => 1,
            SafeMode::Server => 2,
            SafeMode::Secure => 3,
        }
    }

    /// The position of this level in the order of restrictiveness.
    pub fn rank(&self) -> (r: u8)
        ensures
            r == self.level(),
    {
        match self {
            SafeMode::Unsafe => 0,
            SafeMode::Safe => 1,
            SafeMode::Server => 2,
            SafeMode::Secure => 3,
        }
    }
}

impl Default for SafeMode {
    fn default() -> (r: Self)
        ensures
            r == SafeMode::Unsafe,
    {
        SafeMode::Unsafe
    }
}

/// The level a lowercased name denotes.
pub open spec fn mode_named(lower: Seq<char>) -> Option<SafeMode> {
    if lower == "unsafe"@ {
        Some(SafeMode::Unsafe)
    } else if lower == "safe"@ {
        Some(SafeMode::Safe)
    } else if lower == "server"@ {
        Some(SafeMode::Server)
    } else if lower == "secure"@ {
        Some(SafeMode::Secure)
    } else {
        None
    }
}

/// The lowercase name of a level.
pub open spec fn mode_name(m: SafeMode) -> Seq<char> {
    match m {
        SafeMode::Unsafe => "unsafe"@,
        SafeMode::Safe => "safe"@,
        SafeMode::Server => "server"@,
        SafeMode::Secure => "secure"@,
    }
}

/// Law: each level's name denotes that level, and the levels are strictly
/// ordered `Unsafe < Safe < Server < Secure`.
pub proof fn law_mode_names_round_trip(m: SafeMode, n: SafeMode)
    ensures
        mode_named(mode_name(m)) == Some(m),
        m != n ==> m.level() != n.level(),
        0 <= m.level() <= 3,
{
    reveal_strlit("unsafe");
    reveal_strlit("safe");
    reveal_strlit("server");
    reveal_strlit("secure");
    assert("unsafe"@[0] != "safe"@[0] && "unsafe"@[0] != "server"@[0] && "unsafe"@[0]
        != "secure"@[0]);
    assert("safe"@.len() != "server"@.len() && "safe"@.len() != "secure"@.len());
    assert("server"@[2] != "secure"@[2]);
}

/// The message for a name that denotes no level.
pub open spec fn invalid_mode_message(s: Seq<char>) -> Seq<char> {
    "invalid safe mode: '"@ + s + "', expected: unsafe, safe, server, secure"@
}

impl SafeMode {
    /// The level `s` names, in any letter case (`unsafe`, `safe`, `server`,
    /// `secure`); otherwise a message naming `s` and the accepted names.
    pub fn from_str(s: &str) -> (r: Result<Self, String>)
        ensures
            match mode_named(unicode_str_lowercase(s@)) {
                Some(m) => r == Ok::<SafeMode, String>(m),
                None => r matches Err(e) && e@ == invalid_mode_message(s@),
            },
    {
        let lower = to_lowercase_str(s);
        let l = lower.as_str();
        if str_eq(l, "unsafe") {
            Ok(SafeMode::Unsafe)
        } else if str_eq(l, "safe") {
            Ok(SafeMode::Safe)
        } else if str_eq(l, "server") {
            Ok(SafeMode::Server)
        } else if str_eq(l, "secure") {
            Ok(SafeMode::Secure)
        } else {
            let mut e = owned("invalid safe mode: '");
            push_str(&mut e, s);
            push_str(&mut e, "', expected: unsafe, safe, server, secure");
            Err(e)
        }
    }
}

} // verus!
