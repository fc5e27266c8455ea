//! What a destination config may be called, and how large it may be.

use crate::strings;
use crate::text;
use vstd::prelude::*;

verus! {

/// Maximum accepted config size. keyd itself caps a config at this many bytes, so
/// anything bigger can't be a working config.
pub const MAX_CONFIG_BYTES: usize = 65536;

/// A character allowed in a config name.
pub open spec fn name_char(c: char) -> bool {
    text::is_alnum(c) || c == '_' || c == '-'
}

/// A config name the apply tool accepts: one to sixty-four ASCII alphanumerics,
/// underscores and dashes.
pub open spec fn is_valid_name(s: Seq<char>) -> bool {
    &&& 0 < s.len() <= 64
    &&& forall|i: int| 0 <= i < s.len() ==> name_char(#[trigger] s[i])
}

/// Validate a destination config name (the `<name>` of `/etc/keyd/<name>.conf`).
/// The strict allow-list rules out traversal, hidden files, and the temp and backup
/// prefixes used while writing.
pub fn valid_name(name: &str) -> (r: bool)
    ensures
        r == is_valid_name(name@),
{
    let v = strings::chars(name);
    if v.len() == 0 || v.len() > 64 {
        return false;
    }
    let mut i: usize = 0;
    while i < v.len()
        invariant
            i <= v@.len(),
            v@ == name@,
            0 < v@.len() <= 64,
            forall|j: int| 0 <= j < i ==> name_char(#[trigger] v@[j]),
        decreases v.len() - i,
    {
        let c = v[i];
        if !(strings::is_alnum(c) || c == '_' || c == '-') {
            assert(!name_char(name@[i as int]));
            return false;
        }
        i = i + 1;
    }
    true
}

/// A valid name holds neither a dot nor a slash, so it cannot leave its directory
/// and cannot name a hidden file.
pub proof fn valid_name_stays_in_its_directory(s: Seq<char>)
    requires
        is_valid_name(s),
    ensures
        !s.contains('/'),
        !s.contains('.'),
        !s.contains('\0'),
        s.len() == vstd::utf8::encode_utf8(s).len(),
{
    assert forall|i: int| 0 <= i < s.len() implies s[i] != '/' && s[i] != '.' && s[i] != '\0' by {
        assert(name_char(s[i]));
    }
    assert(vstd::utf8::is_ascii_chars(s)) by {
        assert forall|i: int| 0 <= i < s.len() implies (0 <= #[trigger] s[i] as nat <= 127) by {
            assert(name_char(s[i]));
        }
    }
    vstd::utf8::is_ascii_chars_encode_utf8(s);
}

/// Every name of up to sixty-four letters, digits, underscores and dashes is accepted, and
/// no other.
pub proof fn plain_names_are_valid(s: Seq<char>)
    ensures
        is_valid_name(s) <==> 1 <= s.len() <= 64 && forall|i: int|
            0 <= i < s.len() ==> {
                let c = #[trigger] s[i];
                ||| 'a' <= c && c <= 'z'
                ||| 'A' <= c && c <= 'Z'
                ||| '0' <= c && c <= '9'
                ||| c == '_'
                ||| c == '-'
            },
{
    if is_valid_name(s) {
        assert forall|i: int| 0 <= i < s.len() implies ({
            let c = #[trigger] s[i];
            ||| 'a' <= c && c <= 'z'
            ||| 'A' <= c && c <= 'Z'
            ||| '0' <= c && c <= '9'
            ||| c == '_'
            ||| c == '-'
        }) by {
            assert(name_char(s[i]));
        }
    }
}

} // verus!
