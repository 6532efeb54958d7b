//! Admin authentication by `Authorization: Bearer <password>`.
use vstd::prelude::*;
use crate::error::AppError;

verus! {

/// Proof that a request carried the admin password.
pub struct AdminAuth;

/// A byte a header value may hold as text: visible ASCII or a tab.
pub open spec fn is_visible_ascii(b: u8) -> bool {
    (32 <= b && b < 127) || b == 9
}

/// The text of a header value: its bytes as characters when all of them are
/// visible ASCII, and nothing when the header is absent or holds other bytes.
pub open spec fn header_text(header: Option<Seq<u8>>) -> Seq<char> {
    match header {
        Some(b) => if forall|i: int| 0 <= i < b.len() ==> is_visible_ascii(#[trigger] b[i]) {
            b.map_values(|x: u8| x as char)
        } else {
            Seq::empty()
        },
        None => Seq::empty(),
    }
}

/// The scheme prefix of a bearer credential.
pub open spec fn bearer_prefix() -> Seq<char> {
    seq!['B', 'e', 'a', 'r', 'e', 'r', ' ']
}

/// The token after `Bearer `, or nothing when the text has another form.
pub open spec fn bearer_token(text: Seq<char>) -> Seq<char> {
    if text.len() >= 7 && text.take(7) == bearer_prefix() {
        text.skip(7)
    } else {
        Seq::empty()
    }
}

/// The credential text of the header matches a non-empty admin password.
pub open spec fn authorized(header: Option<Seq<u8>>, password: Seq<char>) -> bool {
    let token = bearer_token(header_text(header));
    token.len() > 0 && token == password
}

/// The header as text (empty when absent or not visible ASCII).
#[verifier::loop_isolation(false)]
fn header_chars(header: Option<&[u8]>) -> (t: Vec<char>)
    ensures
        t@ == header_text(
            match header {
                Some(b) => Some(b@),
                None => None,
            },
        ),
{
    match header {
        None => Vec::new(),
        Some(b) => {
            let mut t: Vec<char> = Vec::new();
            let mut i: usize = 0;
            while i < b.len()
                invariant
                    i <= b@.len(),
                    t@ == b@.take(i as int).map_values(|x: u8| x as char),
                    forall|j: int| 0 <= j < i ==> is_visible_ascii(#[trigger] b@[j]),
                decreases b@.len() - i,
            {
                let x = b[i];
                if !((32 <= x && x < 127) || x == 9) {
                    assert(!is_visible_ascii(b@[i as int]));
                    return Vec::new();
                }
                t.push(x as char);
                proof {
                    assert(b@.take(i + 1).map_values(|x: u8| x as char) =~= b@.take(
                        i as int,
                    ).map_values(|x: u8| x as char).push(x as char));
                }
                i = i + 1;
            }
            assert(b@.take(b@.len() as int) =~= b@);
            t
        },
    }
}

/// Checks the `Authorization` header (its raw bytes, if present) against the
/// admin password.  Access is granted exactly when the header reads
/// `Bearer ` followed by the password and the password is not empty;
/// otherwise the answer is `Unauthorized`.
#[verifier::loop_isolation(false)]
pub fn authorize(header: Option<&[u8]>, admin_password: &str) -> (r: Result<AdminAuth, AppError>)
    ensures
        r is Ok <==> authorized(
            match header {
                Some(b) => Some(b@),
                None => None,
            },
            admin_password@,
        ),
        r is Err ==> r == Err::<AdminAuth, AppError>(AppError::Unauthorized),
{
    let t = header_chars(header);
    let p = crate::text::to_chars(admin_password);
    let prefix: [char; 7] = ['B', 'e', 'a', 'r', 'e', 'r', ' '];
    let ghost text = t@;
    if t.len() < 7 {
        return Err(AppError::Unauthorized);
    }
    let mut i: usize = 0;
    while i < 7
        invariant
            i <= 7,
            t@.len() >= 7,
            prefix@ == bearer_prefix(),
            forall|j: int| 0 <= j < i ==> t@[j] == bearer_prefix()[j],
        decreases 7 - i,
    {
        if t[i] != prefix[i] {
            assert(t@.take(7)[i as int] != bearer_prefix()[i as int]);
            return Err(AppError::Unauthorized);
        }
        i = i + 1;
    }
    assert(t@.take(7) =~= bearer_prefix());
    let ghost token = t@.skip(7);
    if t.len() == 7 || t.len() - 7 != p.len() {
        return Err(AppError::Unauthorized);
    }
    let mut k: usize = 0;
    while k < p.len()
        invariant
            k <= p@.len(),
            t@.len() == p@.len() + 7,
            token == t@.skip(7),
            forall|j: int| 0 <= j < k ==> token[j] == p@[j],
        decreases p@.len() - k,
    {
        if t[k + 7] != p[k] {
            assert(token[k as int] != p@[k as int]);
            return Err(AppError::Unauthorized);
        }
        k = k + 1;
    }
    assert(token =~= p@);
    Ok(AdminAuth)
}

/// The only accepted credential is `Bearer ` followed by the admin password,
/// and an empty password accepts nothing.
pub proof fn lemma_authorized_iff_bearer_password(header: Option<Seq<u8>>, password: Seq<char>)
    ensures
        authorized(header, password) <==> (password.len() > 0 && header_text(header)
            == bearer_prefix() + password),
{
    let text = header_text(header);
    if password.len() > 0 && text == bearer_prefix() + password {
        assert(text.take(7) =~= bearer_prefix());
        assert(text.skip(7) =~= password);
    }
    if authorized(header, password) {
        assert(text =~= text.take(7) + text.skip(7));
    }
}

} // verus!
