//! Path validation: a path is non-empty, starts with `/`, does not end
//! with `/` unless it is the root itself, and holds no control or
//! private-use code points.

use vstd::prelude::*;
use vstd::string::StrSliceExecFns;

use crate::error::ZKError;

verus! {

/// Code points allowed inside a path: everything outside the control
/// ranges `U+0001..U+001F` and `U+007F..U+009F`, the private-use range
/// `U+D800..U+F8FF`, and `U+FFF0..U+FFFF`.
pub open spec fn path_char_ok(c: char) -> bool {
    &&& !(0x1 <= c as u32 <= 0x1f)
    &&& !(0x7f <= c as u32 <= 0x9f)
    &&& !(0xd800 <= c as u32 <= 0xf8ff)
    &&& !(0xfff0 <= c as u32 <= 0xffff)
}

/// A well-formed client path.
pub open spec fn path_valid(p: Seq<char>) -> bool {
    &&& p.len() > 0
    &&& p[0] == '/'
    &&& p.len() > 1 ==> p[p.len() - 1] != '/'
    &&& forall|i: int| 0 <= i < p.len() ==> path_char_ok(#[trigger] p[i])
}

/// Accepts exactly the well-formed client paths, and reports every other
/// path as a path error before any request is built.
pub fn validate_path(client_path: &str) -> (r: Result<(), ZKError>)
    ensures
        r is Ok <==> path_valid(client_path@),
        r matches Err(e) ==> e is PathError,
{
    let n = client_path.unicode_len();
    if n == 0 {
        return Err(
            ZKError::PathError(client_path.to_owned(), String::from_str("Path can't be empty")),
        );
    }
    if client_path.get_char(0) != '/' {
        return Err(
            ZKError::PathError(
                client_path.to_owned(),
                String::from_str("Path must start with '/'"),
            ),
        );
    }
    if n > 1 && client_path.get_char(n - 1) == '/' {
        return Err(
            ZKError::PathError(
                client_path.to_owned(),
                String::from_str("Path must not end with '/'"),
            ),
        );
    }
    let mut i: usize = 0;
    while i < n
        invariant
            n == client_path@.len(),
            i <= n,
            forall|j: int| 0 <= j < i ==> path_char_ok(#[trigger] client_path@[j]),
        decreases n - i,
    {
        let c = client_path.get_char(i);
        let u = c as u32;
        if (0x1 <= u && u <= 0x1f) || (0x7f <= u && u <= 0x9f) || (0xd800 <= u && u <= 0xf8ff) || (
        0xfff0 <= u && u <= 0xffff) {
            return Err(
                ZKError::PathError(
                    client_path.to_owned(),
                    String::from_str("Path holds an invalid character"),
                ),
            );
        }
        i += 1;
    }
    Ok(())
}

} // verus!
