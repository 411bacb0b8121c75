//! The GitLab data model and the endpoints it is read from.

use vstd::prelude::*;

verus! {

#[verifier::external_type_specification]
#[verifier::external_body]
pub struct ExNaiveDate(chrono::NaiveDate);

/// A GitLab project.
#[derive(Debug)]
pub struct Project {
    /// Project id
    pub id: usize,
    /// Project path
    pub path_with_namespace: String,
}

/// The role that an access token grants, with the ordinal that the GitLab API
/// uses for it.
#[derive(Clone, Copy, Debug, PartialEq, Eq, Structural)]
pub enum AccessLevel {
    Guest,
    Reporter,
    Developer,
    Maintainer,
    Owner,
}

/// The wire ordinal of an access level.
pub open spec fn level_ordinal(level: AccessLevel) -> u8 {
    match level {
        AccessLevel::Guest => 10,
        AccessLevel::Reporter => 20,
        AccessLevel::Developer => 30,
        AccessLevel::Maintainer => 40,
        AccessLevel::Owner => 50,
    }
}

/// The lowercase label of an access level.
pub open spec fn level_label(level: AccessLevel) -> Seq<char> {
    match level {
        AccessLevel::Guest => "guest"@,
        AccessLevel::Reporter => "reporter"@,
        AccessLevel::Developer => "developer"@,
        AccessLevel::Maintainer => "maintainer"@,
        AccessLevel::Owner => "owner"@,
    }
}

impl AccessLevel {
    /// The integer that stands for this level on the wire.
    pub fn ordinal(&self) -> (r: u8)
        ensures
            r == level_ordinal(*self),
    {
        match *self {
            AccessLevel::Guest => 10,
            AccessLevel::Reporter => 20,
            AccessLevel::Developer => 30,
            AccessLevel::Maintainer => 40,
            AccessLevel::Owner => 50,
        }
    }

    /// The level whose wire ordinal is `n`, if there is one.
    pub fn from_ordinal(n: u8) -> (r: Option<AccessLevel>)
        ensures
            r matches Some(level) ==> level_ordinal(level) == n,
            r is None ==> forall|level: AccessLevel| level_ordinal(level) != n,
    {
        if n == 10 {
            Some(AccessLevel::Guest)
        } else if n == 20 {
            Some(AccessLevel::Reporter)
        } else if n == 30 {
            Some(AccessLevel::Developer)
        } else if n == 40 {
            Some(AccessLevel::Maintainer)
        } else if n == 50 {
            Some(AccessLevel::Owner)
        } else {
            proof {
                assert forall|level: AccessLevel| level_ordinal(level) != n by {
                    match level {
                        AccessLevel::Guest => {},
                        AccessLevel::Reporter => {},
                        AccessLevel::Developer => {},
                        AccessLevel::Maintainer => {},
                        AccessLevel::Owner => {},
                    }
                }
            }
            None
        }
    }

    /// The lowercase label of this level, as it is displayed.
    pub fn label(&self) -> (r: String)
        ensures
            r@ == level_label(*self),
    {
        match *self {
            AccessLevel::Guest => String::from_str("guest"),
            AccessLevel::Reporter => String::from_str("reporter"),
            AccessLevel::Developer => String::from_str("developer"),
            AccessLevel::Maintainer => String::from_str("maintainer"),
            AccessLevel::Owner => String::from_str("owner"),
        }
    }
}

/// Reading a level back from its ordinal gives the same level, and distinct
/// levels have distinct ordinals.
pub proof fn lemma_ordinal_round_trip(level: AccessLevel, other: AccessLevel)
    ensures
        level_ordinal(level) == level_ordinal(other) ==> level == other,
        level_ordinal(level) % 10 == 0,
        10 <= level_ordinal(level) <= 50,
{
}

/// A project access token.
#[derive(Debug)]
pub struct AccessToken {
    /// Scopes
    pub scopes: Vec<String>,
    /// Name
    pub name: String,
    /// Expiration date
    pub expires_at: chrono::NaiveDate,
    /// Active
    pub active: bool,
    /// Revoked
    pub revoked: bool,
    /// Access level
    pub access_level: AccessLevel,
}

/// The path, below the base URL, of the listing of all projects.
pub open spec fn projects_path() -> Seq<char> {
    "/api/v4/projects?per_page=100"@
}

/// The decimal digit for `d`.
pub open spec fn digit_char(d: nat) -> char {
    if d < 10 { (('0' as u8) + (d as u8)) as char } else { '0' }
}

/// The decimal text of `n`, without sign or leading zeros.
pub open spec fn decimal_text(n: nat) -> Seq<char>
    decreases n,
{
    if n < 10 {
        seq![digit_char(n)]
    } else {
        decimal_text(n / 10).push(digit_char(n % 10))
    }
}

/// The URL of the listing of all projects.
pub open spec fn projects_url_text(base: Seq<char>) -> Seq<char> {
    base + projects_path()
}

/// The URL of the listing of the access tokens of project `id`.
pub open spec fn access_tokens_url_text(base: Seq<char>, id: nat) -> Seq<char> {
    base + "/api/v4/projects/"@ + decimal_text(id) + "/access_tokens"@
}

/// The text of the digits `ds`, taken from the last to the first.
pub open spec fn reversed_digits_text(ds: Seq<u8>) -> Seq<char>
    decreases ds.len(),
{
    if ds.len() == 0 {
        Seq::empty()
    } else {
        seq![digit_char(ds.last() as nat)] + reversed_digits_text(ds.drop_last())
    }
}

/// The one-character text of the digit `d`.
fn digit_str(d: u8) -> (r: &'static str)
    requires
        d < 10,
    ensures
        r@ == seq![digit_char(d as nat)],
{
    proof {
        reveal_strlit("0");
        reveal_strlit("1");
        reveal_strlit("2");
        reveal_strlit("3");
        reveal_strlit("4");
        reveal_strlit("5");
        reveal_strlit("6");
        reveal_strlit("7");
        reveal_strlit("8");
        reveal_strlit("9");
    }
    if d == 0 {
        assert("0"@ =~= seq![digit_char(0)]);
        "0"
    } else if d == 1 {
        assert("1"@ =~= seq![digit_char(1)]);
        "1"
    } else if d == 2 {
        assert("2"@ =~= seq![digit_char(2)]);
        "2"
    } else if d == 3 {
        assert("3"@ =~= seq![digit_char(3)]);
        "3"
    } else if d == 4 {
        assert("4"@ =~= seq![digit_char(4)]);
        "4"
    } else if d == 5 {
        assert("5"@ =~= seq![digit_char(5)]);
        "5"
    } else if d == 6 {
        assert("6"@ =~= seq![digit_char(6)]);
        "6"
    } else if d == 7 {
        assert("7"@ =~= seq![digit_char(7)]);
        "7"
    } else if d == 8 {
        assert("8"@ =~= seq![digit_char(8)]);
        "8"
    } else {
        assert("9"@ =~= seq![digit_char(9)]);
        "9"
    }
}

/// The decimal text of `n`.
fn usize_decimal(n: usize) -> (r: String)
    ensures
        r@ == decimal_text(n as nat),
{
    let mut ds: Vec<u8> = Vec::new();
    let mut m: usize = n;
    while m >= 10
        invariant
            decimal_text(n as nat) == decimal_text(m as nat) + reversed_digits_text(ds@),
            forall|k: int| 0 <= k < ds@.len() ==> #[trigger] ds@[k] < 10,
        decreases m,
    {
        let d = (m % 10) as u8;
        proof {
            assert(ds@.push(d).drop_last() =~= ds@);
            assert(decimal_text(m as nat) == decimal_text((m / 10) as nat).push(digit_char(d as nat)));
            assert(decimal_text(n as nat) =~= decimal_text((m / 10) as nat) + reversed_digits_text(ds@.push(d)));
        }
        ds.push(d);
        m = m / 10;
    }
    let last = m as u8;
    proof {
        assert(ds@.push(last).drop_last() =~= ds@);
        assert(decimal_text(n as nat) =~= reversed_digits_text(ds@.push(last)));
    }
    ds.push(last);
    let mut out = String::new();
    let mut j: usize = ds.len();
    assert(ds@.subrange(0, j as int) =~= ds@);
    assert(out@ + reversed_digits_text(ds@) =~= reversed_digits_text(ds@));
    while j > 0
        invariant
            j <= ds@.len(),
            forall|k: int| 0 <= k < ds@.len() ==> #[trigger] ds@[k] < 10,
            decimal_text(n as nat) == out@ + reversed_digits_text(ds@.subrange(0, j as int)),
        decreases j,
    {
        let d = ds[j - 1];
        proof {
            let p = ds@.subrange(0, j as int);
            assert(p.drop_last() =~= ds@.subrange(0, j - 1));
            assert(reversed_digits_text(p) == seq![digit_char(d as nat)] + reversed_digits_text(ds@.subrange(0, j - 1)));
        }
        out.append(digit_str(d));
        assert(decimal_text(n as nat) =~= out@ + reversed_digits_text(ds@.subrange(0, j - 1)));
        j -= 1;
    }
    assert(reversed_digits_text(ds@.subrange(0, 0)) =~= Seq::<char>::empty());
    assert(out@ =~= decimal_text(n as nat));
    out
}

/// The URL from which the project listing is paged, on the instance at `base`.
pub fn projects_url(base: &str) -> (r: String)
    ensures
        r@ == projects_url_text(base@),
{
    let mut url = String::from_str(base);
    url.append("/api/v4/projects?per_page=100");
    url
}

/// The URL from which the access tokens of `project` are paged.
pub fn access_tokens_url(base: &str, project: &Project) -> (r: String)
    ensures
        r@ == access_tokens_url_text(base@, project.id as nat),
{
    let mut url = String::from_str(base);
    url.append("/api/v4/projects/");
    let id = usize_decimal(project.id);
    url.append(id.as_str());
    url.append("/access_tokens");
    url
}

} // verus!
