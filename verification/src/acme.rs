//! Automatic HTTPS via ACME (RFC 8555): what an ACME-managed listener asks
//! the certificate authority for.
use vstd::prelude::*;
use vstd::string::StringExecFns;
use crate::config::AutoTlsConfig;

verus! {

/// Which ACME directory certificates are ordered from.
#[derive(Debug, Clone, PartialEq, Eq)]
pub enum AcmeDirectory {
    /// An explicit directory URL (a private CA, or a local test server).
    Url(String),
    /// Let's Encrypt, production or staging.
    LetsEncrypt { production: bool },
}

/// Everything an ACME-managed listener is set up with.
#[derive(Debug, Clone)]
pub struct AcmePlan {
    pub domains: Vec<String>,
    /// Account contacts, as `mailto:` URIs.
    pub contacts: Vec<String>,
    pub cache_dir: String,
    pub directory: AcmeDirectory,
    /// Extra trust root for reaching the directory itself.
    pub ca_cert_path: Option<String>,
}

/// Why an ACME listener cannot be set up.
#[derive(Debug, Clone, Copy, PartialEq, Eq, Structural)]
pub enum AcmeError {
    NoDomains,
}

impl AcmeError {
    pub open spec fn spec_message(&self) -> Seq<char> {
        match self {
            AcmeError::NoDomains => "ACME requires at least one domain"@,
        }
    }

    /// The human-readable text of this error.
    pub fn message(&self) -> (m: String)
        ensures
            m@ == self.spec_message(),
    {
        match self {
            AcmeError::NoDomains => String::from_str("ACME requires at least one domain"),
        }
    }
}

/// An account contact for an email address.
pub open spec fn mailto(email: Seq<char>) -> Seq<char> {
    "mailto:"@ + email
}

pub open spec fn strings_of(v: Seq<String>) -> Seq<Seq<char>> {
    v.map_values(|s: String| s@)
}

/// The directory to use: an explicit URL always wins over `staging`.
pub open spec fn spec_directory(directory_url: Option<String>, staging: bool) -> AcmeDirectory {
    match directory_url {
        Some(url) => AcmeDirectory::Url(url),
        None => AcmeDirectory::LetsEncrypt { production: !staging },
    }
}

/// Decide how an ACME-managed listener is set up. Fails when no domain is
/// given; otherwise every email becomes a `mailto:` contact, in order.
pub fn plan(
    domains: Vec<String>,
    contact_emails: Vec<String>,
    cache_dir: String,
    directory_url: Option<String>,
    staging: bool,
    ca_cert_path: Option<String>,
) -> (r: Result<AcmePlan, AcmeError>)
    ensures
        domains@.len() == 0 <==> r is Err,
        r matches Err(e) ==> e == AcmeError::NoDomains,
        r matches Ok(p) ==> {
            &&& p.domains@ == domains@
            &&& strings_of(p.contacts@) == strings_of(contact_emails@).map_values(|e: Seq<char>| mailto(e))
            &&& p.cache_dir == cache_dir
            &&& p.directory == spec_directory(directory_url, staging)
            &&& p.ca_cert_path == ca_cert_path
        },
{
    if domains.len() == 0 {
        return Err(AcmeError::NoDomains);
    }
    let mut contacts: Vec<String> = Vec::new();
    let mut i: usize = 0;
    while i < contact_emails.len()
        invariant
            i <= contact_emails@.len(),
            strings_of(contacts@) == strings_of(contact_emails@.take(i as int)).map_values(|e: Seq<char>| mailto(e)),
        decreases contact_emails@.len() - i,
    {
        let mut c = String::from_str("mailto:");
        c.append(contact_emails[i].as_str());
        let ghost before = contacts@;
        contacts.push(c);
        assert(strings_of(contact_emails@.take(i + 1)) =~= strings_of(contact_emails@.take(i as int)).push(contact_emails@[i as int]@));
        assert(strings_of(contacts@) =~= strings_of(before).push(c@));
        assert(strings_of(contacts@) =~= strings_of(contact_emails@.take(i + 1)).map_values(|e: Seq<char>| mailto(e)));
        i = i + 1;
    }
    assert(contact_emails@.take(i as int) =~= contact_emails@);
    let directory = match directory_url {
        Some(url) => AcmeDirectory::Url(url),
        None => AcmeDirectory::LetsEncrypt { production: !staging },
    };
    Ok(AcmePlan { domains, contacts, cache_dir, directory, ca_cert_path })
}

impl AutoTlsConfig {
    /// How this listener's ACME block is set up: no contacts when none are
    /// listed, production Let's Encrypt unless `staging` is set.
    pub fn plan(&self) -> (r: Result<AcmePlan, AcmeError>)
        ensures
            self.domains@.len() == 0 <==> r is Err,
            r matches Err(e) ==> e == AcmeError::NoDomains,
            r matches Ok(p) ==> {
                &&& p.domains@ == self.domains@
                &&& strings_of(p.contacts@) == strings_of(match self.contact_emails {
                    Some(v) => v@,
                    None => Seq::<String>::empty(),
                }).map_values(|e: Seq<char>| mailto(e))
                &&& p.cache_dir@ == match self.cache_dir {
                    Some(d) => d@,
                    None => "./acme-cache"@,
                }
                &&& p.directory == spec_directory(self.directory_url, match self.staging {
                    Some(b) => b,
                    None => false,
                })
                &&& p.ca_cert_path == self.ca_cert
            },
    {
        let emails = match &self.contact_emails {
            Some(v) => v.clone(),
            None => Vec::new(),
        };
        let staging = match self.staging {
            Some(b) => b,
            None => false,
        };
        let dir = self.cache_dir().to_owned();
        plan(self.domains.clone(), emails, dir, self.directory_url.clone(), staging, self.ca_cert.clone())
    }
}

} // verus!
