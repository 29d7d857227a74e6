//! The directory side of a lookup: rendering a batched query as the single
//! outbound request URL, and interpreting what came back from the directory
//! service.  The transport itself is left to the surrounding application;
//! every decision about the exchange is made here.

use vstd::prelude::*;
use vstd::string::*;
use crate::query::BatchQuery;
use crate::query::string_views;

verus! {

/// One resolved identity, as the directory service reports it.
#[derive(Debug)]
pub struct DirectoryRecord {
    pub kind: String,
    pub id: String,
    pub login: String,
    pub display_name: String,
    pub account_type: String,
    pub description: String,
    pub avatar_url: String,
    pub offline_image_url: String,
}

/// The resolved identities of one batched lookup, in the order the service
/// returned them; identifiers the service could not resolve are simply
/// absent.
#[derive(Debug)]
pub struct DirectoryResult {
    pub records: Vec<DirectoryRecord>,
}

/// Why a batched lookup yielded no result.
#[derive(Clone, Copy, Debug, PartialEq, Eq, Structural)]
pub enum DirectoryError {
    /// The call could not be completed at all.
    Transport,
    /// The service answered with a status other than 200.
    Upstream(u16),
    /// The service answered 200 but the body was not the expected record
    /// list.
    Decode,
}

/// `prefix` + value pairs joined by `&`: the parameter list one partition
/// contributes to the request URL.
pub open spec fn joined(prefix: Seq<char>, vals: Seq<Seq<char>>) -> Seq<char>
    decreases vals.len(),
{
    if vals.len() == 0 {
        Seq::empty()
    } else if vals.len() == 1 {
        prefix + vals[0]
    } else {
        joined(prefix, vals.drop_last()) + "&"@ + prefix + vals.last()
    }
}

/// The exact URL of the single batched lookup call: the fixed endpoint, one
/// `id=` parameter per numeric id, then one `login=` parameter per login
/// name.
pub open spec fn url_of(ids: Seq<Seq<char>>, logins: Seq<Seq<char>>) -> Seq<char> {
    "https://api.twitch.tv/helix/users?"@ + (if ids.len() > 0 {
        joined("id="@, ids) + "&"@
    } else {
        Seq::empty()
    }) + (if logins.len() > 0 {
        joined("login="@, logins)
    } else {
        Seq::empty()
    })
}

/// Appends `prefix` + value pairs joined by `&` for every value in `vals`.
fn append_joined(out: &mut String, prefix: &str, vals: &Vec<String>)
    requires
        vals@.len() > 0,
    ensures
        final(out)@ == old(out)@ + joined(prefix@, string_views(vals@)),
{
    let ghost vs = string_views(vals@);
    let mut k: usize = 0;
    while k < vals.len()
        invariant
            k <= vals@.len(),
            vals@.len() > 0,
            vs == string_views(vals@),
            vs.len() == vals@.len(),
            k == 0 ==> out@ == old(out)@,
            k > 0 ==> out@ == old(out)@ + joined(prefix@, vs.take(k as int)),
        decreases vals@.len() - k,
    {
        if k > 0 {
            out.append("&");
        }
        out.append(prefix);
        out.append(vals[k].as_str());
        proof {
            assert(vs.take(k as int + 1).drop_last() =~= vs.take(k as int));
            assert(vs.take(k as int + 1).last() == vs[k as int]);
            assert(vs[k as int] == vals@[k as int]@);
            if k == 0 {
                assert(out@ =~= old(out)@ + joined(prefix@, vs.take(1)));
            } else {
                assert(out@ =~= old(out)@ + joined(prefix@, vs.take(k as int + 1)));
            }
        }
        k += 1;
    }
    proof {
        assert(vs.take(vals@.len() as int) =~= vs);
    }
}

/// Renders a batched query as the one request URL the lookup uses: never
/// one call per identifier, and numeric ids always precede login names.
pub fn render_request_url(q: &BatchQuery) -> (r: String)
    ensures
        r@ == url_of(q.ids(), q.logins()),
{
    let mut url = String::from_str("https://api.twitch.tv/helix/users?");
    if q.numeric_ids.len() > 0 {
        append_joined(&mut url, "id=", &q.numeric_ids);
        url.append("&");
    }
    if q.login_names.len() > 0 {
        append_joined(&mut url, "login=", &q.login_names);
    }
    proof {
        assert(url@ =~= url_of(q.ids(), q.logins()));
    }
    url
}

/// The value of the authorization header the outbound call carries.
pub fn bearer_value(app_token: &str) -> (r: String)
    ensures
        r@ == "Bearer "@ + app_token@,
{
    let mut r = String::from_str("Bearer ");
    r.append(app_token);
    r
}

/// Interprets the outcome of the one outbound call.
///
/// `sent` says whether the transport completed the exchange at all;
/// `status` is the response status when it did; `decoded` is the record
/// list when the body parsed as one.  Exactly status 200 counts as success;
/// any other status is an upstream failure carrying that code; a 200 body
/// that did not parse is a decode failure.
pub fn interpret_fetch(sent: bool, status: u16, decoded: Option<Vec<DirectoryRecord>>) -> (r:
    Result<DirectoryResult, DirectoryError>)
    ensures
        !sent ==> r == Err::<DirectoryResult, DirectoryError>(DirectoryError::Transport),
        sent && status != 200 ==> r == Err::<DirectoryResult, DirectoryError>(
            DirectoryError::Upstream(status),
        ),
        sent && status == 200 ==> (match (decoded, r) {
            (Some(v), Ok(d)) => d.records == v,
            (None, Err(e)) => e == DirectoryError::Decode,
            _ => false,
        }),
{
    if !sent {
        Err(DirectoryError::Transport)
    } else if status != 200 {
        Err(DirectoryError::Upstream(status))
    } else {
        match decoded {
            Some(v) => Ok(DirectoryResult { records: v }),
            None => Err(DirectoryError::Decode),
        }
    }
}

} // verus!
