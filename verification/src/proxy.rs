//! Rendering of the client's reverse-proxy configuration: the fetched
//! credentials are injected as upstream authentication headers for the
//! login path, with a catch-all passthrough for everything else.

use vstd::prelude::*;

verus! {

/// The base64 (standard alphabet, padded) encoding of a character
/// string's UTF-8 bytes: a function of the characters alone.
pub uninterp spec fn base64_of(s: Seq<char>) -> Seq<char>;

/// Relies on base64's `Engine::encode` with the standard padded
/// alphabet: the encoding depends on the input alone, and an empty
/// input encodes to the empty string.
#[verifier::external_body]
fn base64_encode(s: &str) -> (r: String)
    ensures
        r@ == base64_of(s@),
        s@.len() == 0 ==> r@.len() == 0,
{
    base64::Engine::encode(&base64::prelude::BASE64_STANDARD, s)
}

/// The rendered reverse-proxy configuration: a fixed frame around the
/// upstream address (twice), the username, and the already-encoded
/// password.
pub open spec fn rendered_caddyfile(
    upstream: Seq<char>,
    user: Seq<char>,
    encoded_pass: Seq<char>,
) -> Seq<char> {
    "\n{\n\tadmin localhost:20190\n\tauto_https off\n}\n\n:80 {\n\t@autologin path /login*\n\n\thandle @autologin {\n\t\treverse_proxy "@
        + upstream + " {\n\t\t\theader_up X-DOMjudge-Login \""@ + user
        + "\"\n\t\t\theader_up X-DOMjudge-Pass \""@ + encoded_pass
        + "\"\n        }\n\t}\n\n\thandle {\n\t\treverse_proxy "@ + upstream + "\n\t}\n}\n\n    "@
}

/// Renders the reverse-proxy configuration for the fetched
/// credentials: the password travels base64-encoded in its header.
pub fn format_caddyfile(username: &str, password: &str, domjudge_addr: &str) -> (r: String)
    ensures
        r@ == rendered_caddyfile(domjudge_addr@, username@, base64_of(password@)),
{
    let encoded = base64_encode(password);
    let mut out = String::new();
    out.append(
        "\n{\n\tadmin localhost:20190\n\tauto_https off\n}\n\n:80 {\n\t@autologin path /login*\n\n\thandle @autologin {\n\t\treverse_proxy ",
    );
    out.append(domjudge_addr);
    out.append(" {\n\t\t\theader_up X-DOMjudge-Login \"");
    out.append(username);
    out.append("\"\n\t\t\theader_up X-DOMjudge-Pass \"");
    out.append(encoded.as_str());
    out.append("\"\n        }\n\t}\n\n\thandle {\n\t\treverse_proxy ");
    out.append(domjudge_addr);
    out.append("\n\t}\n}\n\n    ");
    proof {
        assert(out@ =~= rendered_caddyfile(domjudge_addr@, username@, base64_of(password@)));
    }
    out
}

} // verus!
