//! The tracking operations: open tracking, click tracking, click-url
//! construction, email registration and the dashboard aggregate — the
//! decision logic behind each inbound request, over plain values. Header
//! extraction and response emission stay with the caller.

use vstd::prelude::*;
use vstd::string::StringSliceAdditionalSpecFns;

use crate::clock::now_millis;
use crate::database::{
    add_email, add_event, click_label, has_email, open_label, opt_str_view, opt_string_view,
    stats_match, upsert_tenant, Database, EventStats,
};
use crate::encoding::{percent_encode, url_encode};
use crate::error::AppError;
use crate::text::{
    dec_digits, find_char, find_char_from, i64_dec_string, parse_i64, parse_i64_ok, parse_i64_val,
    trim_spaces,
};

verus! {

/// A request to register one tracked email.
pub struct CreateEmailRequest {
    pub subject: Option<String>,
    pub recipient: Option<String>,
}

/// The outcome of registering one tracked email: its assigned id and the
/// tracking-pixel URL to embed.
pub struct CreateEmailResponse {
    pub email_id: i64,
    pub tracking_pixel_url: String,
}

/// The tracking path segment with a trailing `.gif` removed, when present.
pub open spec fn strip_gif(s: Seq<char>) -> Seq<char> {
    if s.len() >= 4 && s.subrange(s.len() - 4, s.len() as int) == ".gif"@ {
        s.subrange(0, s.len() - 4)
    } else {
        s
    }
}

/// The first comma-separated entry of a forwarded-for value, with
/// surrounding ASCII whitespace trimmed.
pub open spec fn first_forwarded_ip(s: Seq<char>) -> Seq<char> {
    trim_spaces(s.take(find_char(s, ',', 0)))
}

/// The client address policy shared by both tracking operations: prefer the
/// forwarded-for header, fall back to the real-ip header, else absent; the
/// chosen value is reduced to its first comma-separated entry, trimmed.
pub open spec fn client_ip(fwd: Option<Seq<char>>, realip: Option<Seq<char>>) -> Option<Seq<char>> {
    match (fwd, realip) {
        (Some(s), _) => Some(first_forwarded_ip(s)),
        (None, Some(s)) => Some(first_forwarded_ip(s)),
        (None, None) => None,
    }
}

/// The tracking-pixel URL for an email id.
pub open spec fn pixel_url(base: Seq<char>, tenant: Seq<char>, id: int) -> Seq<char> {
    base + "/"@ + tenant + "/pixel/"@ + dec_digits(id) + ".gif"@
}

/// The wrapped click URL for an email id and an encoded target.
pub open spec fn click_url(base: Seq<char>, tenant: Seq<char>, id: int, url_bytes: Seq<u8>) -> Seq<
    char,
> {
    base + "/"@ + tenant + "/click/"@ + dec_digits(id) + "?url="@ + percent_encode(url_bytes)
}

/// Remove a trailing `.gif` from the tracking path segment, when present.
fn strip_gif_suffix<'a>(s: &'a str) -> (r: &'a str)
    ensures
        r@ == strip_gif(s@),
{
    let len = s.unicode_len();
    proof {
        reveal_strlit(".gif");
    }
    if len >= 4 && s.get_char(len - 4) == '.' && s.get_char(len - 3) == 'g' && s.get_char(len - 2)
        == 'i' && s.get_char(len - 1) == 'f' {
        let r = s.substring_char(0, len - 4);
        proof {
            assert(s@.subrange(s@.len() - 4, s@.len() as int) =~= ".gif"@);
        }
        r
    } else {
        proof {
            if s@.len() >= 4 && s@.subrange(s@.len() - 4, s@.len() as int) == ".gif"@ {
                assert(s@[s@.len() - 4] == ".gif"@[0]);
                assert(s@[s@.len() - 3] == ".gif"@[1]);
                assert(s@[s@.len() - 2] == ".gif"@[2]);
                assert(s@[s@.len() - 1] == ".gif"@[3]);
            }
        }
        s
    }
}

/// Choose and normalize the client address from the two address headers.
pub fn extract_ip(forwarded_for: Option<&str>, real_ip: Option<&str>) -> (r: Option<String>)
    ensures
        opt_string_view(r) == client_ip(opt_str_view(forwarded_for), opt_str_view(real_ip)),
{
    let src = match forwarded_for {
        Some(s) => Some(s),
        None => real_ip,
    };
    match src {
        Some(s) => {
            let k = find_char_from(s, ',', 0);
            let piece = s.substring_char(0, k);
            proof {
                assert(piece@ =~= s@.take(find_char(s@, ',', 0)));
            }
            Some(crate::text::trim_ascii_spaces(piece))
        },
        None => None,
    }
}

/// Open tracking: parse the email id from the pixel path segment, verify
/// ownership under `tenant_id`, and append one `open` event carrying the
/// user agent and the extracted client address. A malformed id is rejected
/// before any storage access; an id that does not resolve under this tenant
/// is a not-found outcome and appends nothing.
pub fn track_open(
    db: &mut Database,
    tenant_id: &str,
    email_id_raw: &str,
    user_agent: Option<&str>,
    forwarded_for: Option<&str>,
    real_ip: Option<&str>,
) -> (r: Result<(), AppError>)
    requires
        old(db).wf(),
    ensures
        final(db).wf(),
        ({
            let core = strip_gif(email_id_raw@);
            let id = parse_i64_val(core);
            if !parse_i64_ok(core) {
                &&& r matches Err(e)
                &&& e matches AppError::InvalidEmailId(raw) && raw@ == core
                &&& final(db)@ == old(db)@
            } else if !has_email(old(db)@, id as i64, tenant_id@) {
                &&& r matches Err(e)
                &&& e is EmailNotFound
                &&& final(db)@ == old(db)@
            } else if old(db)@.next_event_id < i64::MAX {
                &&& r is Ok
                &&& exists|ts: i64|
                    final(db)@ == #[trigger] add_event(
                        old(db)@,
                        id as i64,
                        open_label(),
                        opt_str_view(user_agent),
                        client_ip(opt_str_view(forwarded_for), opt_str_view(real_ip)),
                        ts,
                    )
            } else {
                &&& r matches Err(e)
                &&& e matches AppError::Database(_)
                &&& final(db)@ == old(db)@
            }
        }),
{
    let stripped = strip_gif_suffix(email_id_raw);
    match parse_i64(stripped) {
        None => Err(AppError::InvalidEmailId(stripped.to_owned())),
        Some(id) => {
            match db.get_email(id, tenant_id) {
                Ok(Some(_)) => {
                    let ip = extract_ip(forwarded_for, real_ip);
                    let ip_ref = match &ip {
                        Some(s) => Some(s.as_str()),
                        None => None,
                    };
                    proof {
                        assert(opt_str_view(ip_ref) == opt_string_view(ip));
                    }
                    let now = now_millis();
                    match db.log_event(id, "open", user_agent, ip_ref, now) {
                        Ok(_) => {
                            proof {
                                assert(db@ == add_event(
                                    old(db)@,
                                    id,
                                    open_label(),
                                    opt_str_view(user_agent),
                                    client_ip(
                                        opt_str_view(forwarded_for),
                                        opt_str_view(real_ip),
                                    ),
                                    now,
                                ));
                            }
                            Ok(())
                        },
                        Err(e) => Err(e),
                    }
                },
                Ok(None) => Err(AppError::EmailNotFound),
                Err(e) => Err(e),
            }
        },
    }
}

/// Click tracking: verify ownership under `tenant_id`, append one `click`
/// event, and hand back the target URL exactly as given — the caller
/// redirects to it unmodified, with no validation and no allow-list.
pub fn track_click(
    db: &mut Database,
    tenant_id: &str,
    email_id: i64,
    target_url: &str,
    user_agent: Option<&str>,
    forwarded_for: Option<&str>,
    real_ip: Option<&str>,
) -> (r: Result<String, AppError>)
    requires
        old(db).wf(),
    ensures
        final(db).wf(),
        if !has_email(old(db)@, email_id, tenant_id@) {
            &&& r matches Err(e)
            &&& e is EmailNotFound
            &&& final(db)@ == old(db)@
        } else if old(db)@.next_event_id < i64::MAX {
            &&& r matches Ok(u) && u@ == target_url@
            &&& exists|ts: i64|
                final(db)@ == #[trigger] add_event(
                    old(db)@,
                    email_id,
                    click_label(),
                    opt_str_view(user_agent),
                    client_ip(opt_str_view(forwarded_for), opt_str_view(real_ip)),
                    ts,
                )
        } else {
            &&& r matches Err(e)
            &&& e matches AppError::Database(_)
            &&& final(db)@ == old(db)@
        },
{
    match db.get_email(email_id, tenant_id) {
        Ok(Some(_)) => {
            let ip = extract_ip(forwarded_for, real_ip);
            let ip_ref = match &ip {
                Some(s) => Some(s.as_str()),
                None => None,
            };
            proof {
                assert(opt_str_view(ip_ref) == opt_string_view(ip));
            }
            let now = now_millis();
            match db.log_event(email_id, "click", user_agent, ip_ref, now) {
                Ok(_) => {
                    proof {
                        assert(db@ == add_event(
                            old(db)@,
                            email_id,
                            click_label(),
                            opt_str_view(user_agent),
                            client_ip(opt_str_view(forwarded_for), opt_str_view(real_ip)),
                            now,
                        ));
                    }
                    Ok(target_url.to_owned())
                },
                Err(e) => Err(e),
            }
        },
        Ok(None) => Err(AppError::EmailNotFound),
        Err(e) => Err(e),
    }
}

/// Dashboard aggregate: lazily register the tenant (its id doubles as its
/// display name, as on first view), then compute its statistics. The
/// caller renders the result.
pub fn show_dashboard(db: &mut Database, tenant_id: &str) -> (r: Result<EventStats, AppError>)
    requires
        old(db).wf(),
    ensures
        final(db).wf(),
        exists|ts: i64| final(db)@ == #[trigger] upsert_tenant(old(db)@, tenant_id@, tenant_id@, ts),
        r matches Ok(st) && stats_match(final(db)@, tenant_id@, st@),
{
    let now = now_millis();
    match db.create_tenant(tenant_id, tenant_id, now) {
        Ok(_) => {},
        Err(e) => {
            return Err(e);
        },
    }
    match db.get_tenant_stats(tenant_id) {
        Ok(st) => Ok(st),
        Err(e) => Err(e),
    }
}

/// Register one tracked email under `tenant_id`: lazily register the
/// tenant, insert the email with the next id, and hand back that id with
/// the pixel URL to embed. Fails only when the email id space is exhausted;
/// the lazy tenant registration still stands then, as it is its own atomic
/// step.
pub fn create_email(
    db: &mut Database,
    tenant_id: &str,
    base_url: &str,
    req: CreateEmailRequest,
) -> (r: Result<CreateEmailResponse, AppError>)
    requires
        old(db).wf(),
    ensures
        final(db).wf(),
        old(db)@.next_email_id < i64::MAX ==> {
            &&& r matches Ok(resp)
            &&& resp.email_id == old(db)@.next_email_id
            &&& resp.tracking_pixel_url@ == pixel_url(
                base_url@,
                tenant_id@,
                old(db)@.next_email_id as int,
            )
            &&& exists|ts1: i64, ts2: i64|
                final(db)@ == #[trigger] add_email(
                    upsert_tenant(old(db)@, tenant_id@, tenant_id@, ts1),
                    tenant_id@,
                    opt_string_view(req.subject),
                    opt_string_view(req.recipient),
                    ts2,
                )
        },
        old(db)@.next_email_id == i64::MAX ==> {
            &&& r matches Err(e)
            &&& e matches AppError::Database(_)
            &&& exists|ts1: i64|
                final(db)@ == #[trigger] upsert_tenant(old(db)@, tenant_id@, tenant_id@, ts1)
        },
{
    let now = now_millis();
    match db.create_tenant(tenant_id, tenant_id, now) {
        Ok(_) => {},
        Err(e) => {
            return Err(e);
        },
    }
    let subject = match &req.subject {
        Some(s) => Some(s.as_str()),
        None => None,
    };
    let recipient = match &req.recipient {
        Some(s) => Some(s.as_str()),
        None => None,
    };
    let now2 = now_millis();
    match db.create_email(tenant_id, subject, recipient, now2) {
        Ok(id) => {
            let mut url: String = base_url.to_owned();
            url.append("/");
            url.append(tenant_id);
            url.append("/pixel/");
            let digits = i64_dec_string(id);
            url.append(digits.as_str());
            url.append(".gif");
            proof {
                assert(url@ =~= pixel_url(base_url@, tenant_id@, id as int));
            }
            Ok(CreateEmailResponse { email_id: id, tracking_pixel_url: url })
        },
        Err(e) => Err(e),
    }
}

/// Build the wrapped click URL for an email, without recording anything: a
/// missing target is rejected, ownership is verified, and the target is
/// percent-encoded into the query string while also being returned
/// unmodified.
pub fn get_click_url(
    db: &Database,
    tenant_id: &str,
    email_id: i64,
    target_url: Option<&str>,
    base_url: &str,
) -> (r: Result<(String, String), AppError>)
    requires
        db.wf(),
    ensures
        match target_url {
            None => {
                &&& r matches Err(e)
                &&& e matches AppError::InvalidUrl(msg) && msg@ == "Missing 'url' parameter"@
            },
            Some(u) => {
                if has_email(db@, email_id, tenant_id@) {
                    &&& r matches Ok(p)
                    &&& p.0@ == click_url(base_url@, tenant_id@, email_id as int, u.spec_bytes())
                    &&& p.1@ == u@
                } else {
                    &&& r matches Err(e)
                    &&& e is EmailNotFound
                }
            },
        },
{
    let url = match target_url {
        Some(u) => u,
        None => {
            return Err(AppError::InvalidUrl("Missing 'url' parameter".to_owned()));
        },
    };
    match db.get_email(email_id, tenant_id) {
        Ok(Some(_)) => {
            proof {
                assert(email_id >= 1);
            }
            let mut wrapped: String = base_url.to_owned();
            wrapped.append("/");
            wrapped.append(tenant_id);
            wrapped.append("/click/");
            let digits = i64_dec_string(email_id);
            wrapped.append(digits.as_str());
            wrapped.append("?url=");
            let encoded = url_encode(url);
            wrapped.append(encoded.as_str());
            proof {
                assert(wrapped@ =~= click_url(
                    base_url@,
                    tenant_id@,
                    email_id as int,
                    url.spec_bytes(),
                ));
            }
            Ok((wrapped, url.to_owned()))
        },
        Ok(None) => Err(AppError::EmailNotFound),
        Err(e) => Err(e),
    }
}

} // verus!
