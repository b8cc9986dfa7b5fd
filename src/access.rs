//! Who may call what: controllers may change settings and the vault; any
//! authenticated caller on the allow-list (or any at all, when the list is
//! empty) may chat and read memory. The anonymous principal may do neither.

use vstd::prelude::*;

verus! {

/// Why a call was refused.
#[derive(Clone, Copy, Debug, PartialEq, Eq, Structural)]
pub enum AccessError {
    /// The caller did not authenticate.
    Anonymous,
    /// The caller is authenticated but not allowed.
    Denied,
}

/// Whether `caller` is one of `allowed`.
pub open spec fn listed(caller: Seq<u8>, allowed: Seq<Vec<u8>>) -> bool {
    exists|i: int| 0 <= i < allowed.len() && (#[trigger] allowed[i])@ == caller
}

fn bytes_eq(a: &Vec<u8>, b: &[u8]) -> (r: bool)
    ensures
        r == (a@ == b@),
{
    if a.len() != b.len() {
        return false;
    }
    let mut i: usize = 0;
    while i < a.len()
        invariant
            a@.len() == b@.len(),
            i <= a@.len(),
            forall|j: int| 0 <= j < i ==> a@[j] == b@[j],
        decreases a@.len() - i,
    {
        if a[i] != b[i] {
            return false;
        }
        i = i + 1;
    }
    assert(a@ =~= b@);
    true
}

/// Allows controllers only.
pub fn require_controller(is_anonymous: bool, is_controller: bool) -> (r: Result<(), AccessError>)
    ensures
        r is Ok <==> !is_anonymous && is_controller,
        is_anonymous ==> r == Err::<(), AccessError>(AccessError::Anonymous),
        !is_anonymous && !is_controller ==> r == Err::<(), AccessError>(AccessError::Denied),
{
    if is_anonymous {
        Err(AccessError::Anonymous)
    } else if !is_controller {
        Err(AccessError::Denied)
    } else {
        Ok(())
    }
}

/// Allows controllers, and other authenticated callers when the allow-list
/// is empty or names them.
pub fn require_authorized(
    caller: &[u8],
    is_anonymous: bool,
    is_controller: bool,
    allowed: &Vec<Vec<u8>>,
) -> (r: Result<(), AccessError>)
    ensures
        is_anonymous ==> r == Err::<(), AccessError>(AccessError::Anonymous),
        !is_anonymous ==> (r is Ok <==> is_controller || allowed@.len() == 0 || listed(
            caller@,
            allowed@,
        )),
        !is_anonymous && r is Err ==> r == Err::<(), AccessError>(AccessError::Denied),
{
    if is_anonymous {
        return Err(AccessError::Anonymous);
    }
    if is_controller || allowed.len() == 0 {
        return Ok(());
    }
    let mut i: usize = 0;
    while i < allowed.len()
        invariant
            !is_anonymous,
            i <= allowed@.len(),
            forall|j: int| 0 <= j < i ==> (#[trigger] allowed@[j])@ != caller@,
        decreases allowed@.len() - i,
    {
        if bytes_eq(&allowed[i], caller) {
            return Ok(());
        }
        i = i + 1;
    }
    Err(AccessError::Denied)
}

} // verus!
