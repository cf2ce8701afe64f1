//! The credentials and identity a run works with, constructed once at
//! startup and passed in; the library never reads the process
//! environment.
use vstd::prelude::*;

verus! {

/// The remote store's access token, the team whose posts are mirrored,
/// and the user whose posts a bulk fetch selects.
pub struct UserConfig {
    pub api_key: Vec<u8>,
    pub team: Vec<u8>,
    pub user: Vec<u8>,
}

/// `Bearer `
pub open spec fn lit_bearer() -> Seq<u8> {
    seq![66u8, 101u8, 97u8, 114u8, 101u8, 114u8, 32u8]
}

/// The authorization header value for an access token.
pub open spec fn auth_header_spec(key: Seq<u8>) -> Seq<u8> {
    lit_bearer() + key
}

impl UserConfig {
    /// Builds the authorization header value for this configuration.
    pub fn auth_header(&self) -> (r: Vec<u8>)
        ensures
            r@ == auth_header_spec(self.api_key@),
    {
        let mut v: Vec<u8> = Vec::new();
        v.push(66);
        v.push(101);
        v.push(97);
        v.push(114);
        v.push(101);
        v.push(114);
        v.push(32);
        proof {
            assert(v@ =~= lit_bearer());
        }
        let mut i: usize = 0;
        while i < self.api_key.len()
            invariant
                0 <= i <= self.api_key@.len(),
                v@ == lit_bearer() + self.api_key@.take(i as int),
            decreases self.api_key@.len() - i,
        {
            v.push(self.api_key[i]);
            proof {
                assert(self.api_key@.take(i + 1) =~= self.api_key@.take(i as int).push(
                    self.api_key@[i as int],
                ));
            }
            i = i + 1;
        }
        proof {
            assert(self.api_key@.take(i as int) =~= self.api_key@);
        }
        v
    }
}

} // verus!
