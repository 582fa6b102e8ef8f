//! Platform-B client state and request parameters.

use crate::text::concat_text;
use vstd::prelude::*;

verus! {

/// A user of platform B, named by login or by id.
pub enum UserIdentity {
    Login(String),
    Id(String),
}

/// The query parameters naming `ids` to the streams endpoint.
pub open spec fn stream_params_spec(ids: Seq<UserIdentity>) -> Seq<(Seq<char>, Seq<char>)> {
    ids.map_values(|u: UserIdentity| match u {
        UserIdentity::Id(s) => ("user_id"@, s@),
        UserIdentity::Login(s) => ("user_login"@, s@),
    })
}

/// The query parameters naming `ids` to the users endpoint.
pub open spec fn user_params_spec(ids: Seq<UserIdentity>) -> Seq<(Seq<char>, Seq<char>)> {
    ids.map_values(|u: UserIdentity| match u {
        UserIdentity::Id(s) => ("id"@, s@),
        UserIdentity::Login(s) => ("login"@, s@),
    })
}

pub open spec fn param_texts(ps: Seq<(&str, String)>) -> Seq<(Seq<char>, Seq<char>)> {
    ps.map_values(|p: (&str, String)| (p.0@, p.1@))
}

/// The query parameters of a streams request for `ids`, one per identity.
pub fn stream_query_params(ids: &Vec<UserIdentity>) -> (r: Vec<(&'static str, String)>)
    ensures
        param_texts(r@) == stream_params_spec(ids@),
{
    let mut out: Vec<(&'static str, String)> = Vec::new();
    let mut i: usize = 0;
    while i < ids.len()
        invariant
            i <= ids.len(),
            param_texts(out@) == stream_params_spec(ids@).take(i as int),
        decreases ids.len() - i,
    {
        let p = match &ids[i] {
            UserIdentity::Id(s) => ("user_id", s.clone()),
            UserIdentity::Login(s) => ("user_login", s.clone()),
        };
        assert((p.0@, p.1@) == stream_params_spec(ids@)[i as int]);
        let ghost before = out@;
        out.push(p);
        proof {
            assert(param_texts(out@) =~= param_texts(before).push((p.0@, p.1@)));
            assert(stream_params_spec(ids@).take(i + 1) =~= stream_params_spec(ids@).take(i as int).push(stream_params_spec(ids@)[i as int]));
        }
        i = i + 1;
    }
    out
}

/// The query parameters of a users request for `ids`, one per identity.
pub fn user_query_params(ids: &Vec<UserIdentity>) -> (r: Vec<(&'static str, String)>)
    ensures
        param_texts(r@) == user_params_spec(ids@),
{
    let mut out: Vec<(&'static str, String)> = Vec::new();
    let mut i: usize = 0;
    while i < ids.len()
        invariant
            i <= ids.len(),
            param_texts(out@) == user_params_spec(ids@).take(i as int),
        decreases ids.len() - i,
    {
        let p = match &ids[i] {
            UserIdentity::Id(s) => ("id", s.clone()),
            UserIdentity::Login(s) => ("login", s.clone()),
        };
        assert((p.0@, p.1@) == user_params_spec(ids@)[i as int]);
        let ghost before = out@;
        out.push(p);
        proof {
            assert(param_texts(out@) =~= param_texts(before).push((p.0@, p.1@)));
            assert(user_params_spec(ids@).take(i + 1) =~= user_params_spec(ids@).take(i as int).push(user_params_spec(ids@)[i as int]));
        }
        i = i + 1;
    }
    out
}

/// The credentials and current access token of the platform-B client.
pub struct TwApiClient {
    pub client_id: String,
    pub client_secret: String,
    pub access_token: String,
}

impl TwApiClient {
    /// A client holding the token the credentials were exchanged for.
    pub fn new(client_id: String, client_secret: String, access_token: String) -> (r: TwApiClient)
        ensures
            r.client_id == client_id,
            r.client_secret == client_secret,
            r.access_token == access_token,
    {
        TwApiClient { client_id, client_secret, access_token }
    }

    /// The `Authorization` header value for the current token.
    pub fn authorization(&self) -> (r: String)
        ensures
            r@ == "Bearer "@ + self.access_token@,
    {
        concat_text("Bearer ", self.access_token.as_str())
    }

    /// Installs a token obtained after the old one was refused.
    pub fn replace_access_token(&mut self, token: String)
        ensures
            final(self).access_token == token,
            final(self).client_id == old(self).client_id,
            final(self).client_secret == old(self).client_secret,
    {
        self.access_token = token;
    }
}

/// One page of a paginated response.
pub struct PagedResponse<T> {
    pub next_page_token: Option<String>,
    pub prev_page_token: Option<String>,
    pub value: Vec<T>,
}

/// Adds a page's items to `result`; returns the token of the next page,
/// `None` when this was the last one.
pub fn accumulate_page<T>(result: &mut Vec<T>, page: PagedResponse<T>) -> (r: Option<String>)
    ensures
        final(result)@ == old(result)@ + page.value@,
        r == page.next_page_token,
{
    let PagedResponse { next_page_token, prev_page_token: _, value } = page;
    let mut items = value;
    result.append(&mut items);
    next_page_token
}

} // verus!
