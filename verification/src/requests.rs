//! The headers that every request to GitHub's API carries.
use vstd::prelude::*;
use crate::text::append_str;

verus! {

/// The headers of a request, as (name, value) pairs in the order of
/// insertion: the bearer token, the API version and the user agent.
pub open spec fn request_headers_spec(api_key: Seq<char>, user_agent: Seq<char>) -> Seq<
    (Seq<char>, Seq<char>),
> {
    seq![
        ("authorization"@, "Bearer "@ + api_key),
        ("X-GitHub-Api-Version"@, "2022-11-28"@),
        ("user-agent"@, user_agent),
    ]
}

fn text(s: &str) -> (r: String)
    ensures
        r@ == s@,
{
    s.to_owned()
}

/// The headers of a request made with the token `api_key` as `user_agent`.
pub fn request_headers(api_key: &str, user_agent: &str) -> (r: Vec<(String, String)>)
    ensures
        r@.map_values(|h: (String, String)| (h.0@, h.1@)) == request_headers_spec(
            api_key@,
            user_agent@,
        ),
{
    let mut bearer = String::new();
    append_str(&mut bearer, "Bearer ");
    append_str(&mut bearer, api_key);
    let mut r = Vec::new();
    r.push((text("authorization"), bearer));
    r.push((text("X-GitHub-Api-Version"), text("2022-11-28")));
    r.push((text("user-agent"), text(user_agent)));
    assert(r@.map_values(|h: (String, String)| (h.0@, h.1@)) =~= request_headers_spec(
        api_key@,
        user_agent@,
    ));
    r
}

} // verus!
