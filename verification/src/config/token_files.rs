//! Configuration of where the credential files of each worker category live.

use vstd::prelude::*;

verus! {

use vstd::string::StringExecFns;

/// One token file per worker category.
#[derive(Debug, Clone, PartialEq, Eq, Hash)]
pub struct TokenFiles {
    pub client: String,
    pub server: String,
    pub admin: String,
}

fn _client() -> (r: String)
    ensures
        r@ == "./client_tokens.txt"@,
{
    String::from_str("./client_tokens.txt")
}

fn _server() -> (r: String)
    ensures
        r@ == "./server_tokens.txt"@,
{
    String::from_str("./server_tokens.txt")
}

fn _admin() -> (r: String)
    ensures
        r@ == "./admin_tokens.txt"@,
{
    String::from_str("./admin_tokens.txt")
}

impl TokenFiles {
    /// The three token files beside the server binary.
    pub open spec fn is_default(&self) -> bool {
        &&& self.client@ == "./client_tokens.txt"@
        &&& self.server@ == "./server_tokens.txt"@
        &&& self.admin@ == "./admin_tokens.txt"@
    }
}

impl Default for TokenFiles {
    fn default() -> (r: Self)
        ensures
            r.is_default(),
    {
        TokenFiles { client: _client(), server: _server(), admin: _admin() }
    }
}

} // verus!
