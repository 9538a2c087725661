//! File names under which moods are stored.
use vstd::prelude::*;
use crate::text::{chars_of, string_of};

verus! {

/// `c`, with path separators and colons made underscores.
pub open spec fn safe_char(c: char) -> char {
    if c == '/' || c == '\\' || c == ':' {
        '_'
    } else {
        c
    }
}

/// `key` made safe as a file name; `default` for an empty key.
pub open spec fn sanitized_spec(key: Seq<char>) -> Seq<char> {
    if key.len() == 0 {
        "default"@
    } else {
        key.map_values(|c: char| safe_char(c))
    }
}

/// `key` made safe as a file name.
pub fn sanitize_key(key: &str) -> (r: String)
    ensures
        r@ == sanitized_spec(key@),
        forall|i: int| 0 <= i < r@.len() && key@.len() > 0 ==> #[trigger] r@[i] != '/' && r@[i]
            != '\\' && r@[i] != ':',
{
    let k = chars_of(key);
    if k.len() == 0 {
        return "default".to_string();
    }
    let mut out: Vec<char> = Vec::new();
    let mut i: usize = 0;
    while i < k.len()
        invariant
            i <= k@.len(),
            k@ == key@,
            out@ == key@.take(i as int).map_values(|c: char| safe_char(c)),
        decreases k.len() - i,
    {
        let c = k[i];
        let s = if c == '/' || c == '\\' || c == ':' {
            '_'
        } else {
            c
        };
        proof {
            assert(key@.take(i + 1).map_values(|c: char| safe_char(c)) =~= key@.take(
                i as int,
            ).map_values(|c: char| safe_char(c)).push(s));
        }
        out.push(s);
        i = i + 1;
    }
    proof {
        assert(key@.take(key@.len() as int) =~= key@);
    }
    string_of(&out)
}

} // verus!
