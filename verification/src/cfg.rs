//! The configuration a run works under, as plain data, and the defaulting
//! rules the driver applies to it. Reading and deserializing the
//! configuration file happens outside; the logic here answers what each
//! setting means when it is absent.

use vstd::prelude::*;

verus! {

/// The decoding settings: the service credentials.
pub struct Decoding {
    /// The service user.
    pub user: Option<Vec<u8>>,
    /// The service password.
    pub password: Option<Vec<u8>>,
}

/// The cutting settings.
pub struct Cutting {
    /// The least accepted provider rating.
    pub min_cutlist_rating: Option<u8>,
    /// The rating given to submitted cut lists.
    pub cutlist_rating: Option<u8>,
    /// Whether self-made cut lists are submitted.
    pub submit_cutlists: Option<bool>,
    /// The provider access token for submission.
    pub cutlist_at_access_token: Option<Vec<u8>>,
}

/// The configuration file's content.
pub struct Cfg {
    /// The working root, when configured.
    pub working_dir: Option<Vec<u8>>,
    /// The decoding section, when present.
    pub decoding: Option<Decoding>,
    /// The cutting section, when present.
    pub cutting: Option<Cutting>,
}

/// The provider access token, when the cutting section names one.
pub fn cutlist_at_access_token(cfg: &Cfg) -> (r: Option<Vec<u8>>)
    ensures
        match &cfg.cutting {
            Some(c) => match &c.cutlist_at_access_token {
                Some(t) => r matches Some(v) && v@ == t@,
                None => r is None,
            },
            None => r is None,
        },
{
    match &cfg.cutting {
        Some(c) => match &c.cutlist_at_access_token {
            Some(t) => Some(crate::text::sub_vec(t.as_slice(), 0, t.len())),
            None => None,
        },
        None => None,
    }
}

/// The rating for submitted cut lists; zero when none is configured.
pub fn cutlist_rating(cfg: &Cfg) -> (r: u8)
    ensures
        match &cfg.cutting {
            Some(c) => match c.cutlist_rating {
                Some(v) => r == v,
                None => r == 0,
            },
            None => r == 0,
        },
{
    match &cfg.cutting {
        Some(c) => match c.cutlist_rating {
            Some(v) => v,
            None => 0,
        },
        None => 0,
    }
}

/// The least accepted provider rating, when one is configured.
pub fn min_cutlist_rating(cfg: &Cfg) -> (r: Option<u8>)
    ensures
        match &cfg.cutting {
            Some(c) => r == c.min_cutlist_rating,
            None => r is None,
        },
{
    match &cfg.cutting {
        Some(c) => c.min_cutlist_rating,
        None => None,
    }
}

/// The configured service credentials; present only when both the user
/// and the password are set.
pub fn otr_access_data(cfg: &Cfg) -> (r: Option<(Vec<u8>, Vec<u8>)>)
    ensures
        match &cfg.decoding {
            Some(d) => match (&d.user, &d.password) {
                (Some(u), Some(p)) => r matches Some(c) && c.0@ == u@ && c.1@ == p@,
                _ => r is None,
            },
            None => r is None,
        },
{
    match &cfg.decoding {
        Some(d) => match (&d.user, &d.password) {
            (Some(u), Some(p)) => Some(
                (
                    crate::text::sub_vec(u.as_slice(), 0, u.len()),
                    crate::text::sub_vec(p.as_slice(), 0, p.len()),
                ),
            ),
            _ => None,
        },
        None => None,
    }
}

/// Whether self-made cut lists are submitted; off when not configured.
pub fn submit_cutlists(cfg: &Cfg) -> (r: bool)
    ensures
        match &cfg.cutting {
            Some(c) => match c.submit_cutlists {
                Some(v) => r == v,
                None => r == false,
            },
            None => r == false,
        },
{
    match &cfg.cutting {
        Some(c) => match c.submit_cutlists {
            Some(v) => v,
            None => false,
        },
        None => false,
    }
}

/// The configured working root, when one is set.
pub fn working_dir(cfg: &Cfg) -> (r: Option<Vec<u8>>)
    ensures
        match &cfg.working_dir {
            Some(d) => r matches Some(v) && v@ == d@,
            None => r is None,
        },
{
    match &cfg.working_dir {
        Some(d) => Some(crate::text::sub_vec(d.as_slice(), 0, d.len())),
        None => None,
    }
}

} // verus!
