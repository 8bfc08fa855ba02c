//! Resolution of the process configuration from environment values.

use vstd::prelude::*;

verus! {

/// Port used when the port environment variable is not set.
pub const DEFAULT_PORT: u16 = 8080;

/// Errors that abort startup before any network activity.
#[derive(Clone, Copy, Debug, PartialEq, Eq, Structural)]
pub enum ConfigError {
    /// Local mode, but the local secret variable is absent.
    MissingLocalSecret,
    /// The port variable is set but does not hold an unsigned 16-bit number.
    InvalidPort,
    /// A connection string holds no account key entry.
    MissingAccountKey,
}

/// Cloud mode holds exactly when the cloud indicator variable is present;
/// its value is not validated.
pub open spec fn cloud_mode_spec(cloud_indicator: Option<String>) -> bool {
    cloud_indicator is Some
}

/// Presence of the cloud indicator variable decides the mode.
pub fn probe_environment(cloud_indicator: &Option<String>) -> (r: bool)
    ensures
        r == cloud_mode_spec(*cloud_indicator),
{
    match cloud_indicator {
        Some(_) => true,
        None => false,
    }
}

pub open spec fn is_ascii_digit_char(c: char) -> bool {
    48 <= c as int && c as int <= 57
}

pub open spec fn digit_value(c: char) -> int {
    c as int - 48
}

pub open spec fn all_digits(s: Seq<char>) -> bool {
    forall|k: int| 0 <= k < s.len() ==> is_ascii_digit_char(#[trigger] s[k])
}

/// Numeric value of a sequence of decimal digits, most significant first.
pub open spec fn digits_value(s: Seq<char>) -> int
    decreases s.len(),
{
    if s.len() == 0 {
        0
    } else {
        10 * digits_value(s.drop_last()) + digit_value(s.last())
    }
}

proof fn lemma_digits_value_nonneg(s: Seq<char>)
    requires
        all_digits(s),
    ensures
        digits_value(s) >= 0,
    decreases s.len(),
{
    if s.len() > 0 {
        assert(forall|k: int| 0 <= k < s.drop_last().len() ==> s.drop_last()[k] == s[k]);
        lemma_digits_value_nonneg(s.drop_last());
    }
}

proof fn lemma_digits_value_prefix_le(s: Seq<char>, m: int)
    requires
        0 <= m <= s.len(),
        all_digits(s),
    ensures
        digits_value(s.take(m)) <= digits_value(s),
    decreases s.len() - m,
{
    if m < s.len() {
        assert(s.take(m + 1).drop_last() =~= s.take(m));
        assert(s.take(m + 1).last() == s[m]);
        assert(forall|k: int| 0 <= k < m ==> s.take(m)[k] == s[k]);
        lemma_digits_value_nonneg(s.take(m));
        assert(digits_value(s.take(m + 1)) == 10 * digits_value(s.take(m)) + digit_value(s[m]));
        lemma_digits_value_prefix_le(s, m + 1);
    } else {
        assert(s.take(m) =~= s);
    }
}

/// The digit portion of a port setting: everything after an optional
/// leading plus sign.
pub open spec fn port_digits(s: Seq<char>) -> Seq<char> {
    if s.len() > 0 && s[0] == '+' {
        s.skip(1)
    } else {
        s
    }
}

/// What parsing a port setting as an unsigned 16-bit number yields: after an
/// optional leading plus sign, a non-empty run of decimal digits whose value
/// is at most 65535; anything else is rejected.
pub open spec fn parse_port_spec(s: Seq<char>) -> Option<u16> {
    let d = port_digits(s);
    if d.len() > 0 && all_digits(d) && digits_value(d) <= 65535 {
        Some(digits_value(d) as u16)
    } else {
        None
    }
}

/// Parses the port variable's value as an unsigned 16-bit number.
pub fn parse_port(s: &str) -> (r: Result<u16, ConfigError>)
    ensures
        match r {
            Ok(p) => parse_port_spec(s@) == Some(p),
            Err(e) => parse_port_spec(s@) is None && e == ConfigError::InvalidPort,
        },
{
    let n = s.unicode_len();
    let start: usize = if n > 0 && s.get_char(0) == '+' {
        1
    } else {
        0
    };
    let ghost d: Seq<char> = port_digits(s@);
    proof {
        assert(d =~= s@.skip(start as int));
    }
    if start == n {
        return Err(ConfigError::InvalidPort);
    }
    let mut acc: u32 = 0;
    let mut i: usize = start;
    while i < n
        invariant
            start <= i <= n,
            start < n,
            n == s@.len(),
            d == port_digits(s@),
            d == s@.skip(start as int),
            d.len() == n - start,
            forall|k: int| 0 <= k < i - start ==> is_ascii_digit_char(#[trigger] d[k]),
            acc as int == digits_value(d.take(i - start)),
            acc <= 65535,
        decreases n - i,
    {
        let c = s.get_char(i);
        let u = c as u32;
        proof {
            assert(d[i - start] == s@[i as int]);
        }
        if u < 48 || u > 57 {
            proof {
                assert(!is_ascii_digit_char(d[i - start]));
            }
            return Err(ConfigError::InvalidPort);
        }
        let digit = u - 48;
        proof {
            assert(d.take(i - start + 1).drop_last() =~= d.take(i - start));
            assert(d.take(i - start + 1).last() == d[i - start]);
            assert(digits_value(d.take(i - start + 1)) == acc * 10 + digit);
        }
        let next = acc * 10 + digit;
        if next > 65535 {
            proof {
                if all_digits(d) {
                    lemma_digits_value_prefix_le(d, i - start + 1);
                }
            }
            return Err(ConfigError::InvalidPort);
        }
        acc = next;
        i = i + 1;
    }
    proof {
        assert(d.take(n - start) =~= d);
        assert(all_digits(d));
    }
    Ok(acc as u16)
}

/// The entry prefix that introduces the account key in a connection string.
pub open spec fn key_prefix() -> Seq<char> {
    "AccountKey="@
}

/// Index of the first semicolon in `s`, or `s.len()` if there is none.
pub open spec fn first_semi(s: Seq<char>) -> int
    decreases s.len(),
{
    if s.len() == 0 {
        0
    } else if s[0] == ';' {
        0
    } else {
        1 + first_semi(s.skip(1))
    }
}

proof fn lemma_first_semi(s: Seq<char>)
    ensures
        0 <= first_semi(s) <= s.len(),
        forall|k: int| 0 <= k < first_semi(s) ==> #[trigger] s[k] != ';',
        first_semi(s) < s.len() ==> s[first_semi(s)] == ';',
    decreases s.len(),
{
    if s.len() == 0 {
    } else if s[0] == ';' {
    } else {
        lemma_first_semi(s.skip(1));
        assert forall|k: int| 0 <= k < first_semi(s) implies s[k] != ';' by {
            if k > 0 {
                assert(s.skip(1)[k - 1] == s[k]);
            }
        }
    }
}

proof fn lemma_first_semi_is(t: Seq<char>, m: int)
    requires
        0 <= m <= t.len(),
        forall|k: int| 0 <= k < m ==> #[trigger] t[k] != ';',
        m < t.len() ==> t[m] == ';',
    ensures
        first_semi(t) == m,
    decreases t.len(),
{
    if t.len() == 0 {
    } else if t[0] == ';' {
        assert(m == 0);
    } else {
        assert(m >= 1);
        assert(forall|k: int| 0 <= k < t.skip(1).len() ==> #[trigger] t.skip(1)[k] == t[k + 1]);
        lemma_first_semi_is(t.skip(1), m - 1);
    }
}

#[via_fn]
proof fn extract_key_spec_decreases(s: Seq<char>) {
    lemma_first_semi(s);
}

/// The account key that a semicolon-separated connection string yields: the
/// remainder of the first entry that starts with the key prefix, or nothing
/// if no entry does.
pub open spec fn extract_key_spec(s: Seq<char>) -> Option<Seq<char>>
    decreases s.len() via extract_key_spec_decreases
{
    let m = first_semi(s);
    let part = s.take(m);
    if part.len() >= key_prefix().len() && part.take(key_prefix().len() as int) == key_prefix() {
        Some(part.skip(key_prefix().len() as int))
    } else if m < s.len() {
        extract_key_spec(s.skip(m + 1))
    } else {
        None
    }
}

/// Finds the account key entry of a semicolon-separated connection string.
pub fn extract_account_key(connection_string: &str) -> (r: Result<String, ConfigError>)
    ensures
        match r {
            Ok(key) => extract_key_spec(connection_string@) == Some(key@),
            Err(e) => extract_key_spec(connection_string@) is None && e
                == ConfigError::MissingAccountKey,
        },
{
    let prefix = "AccountKey=";
    proof {
        reveal_strlit("AccountKey=");
        assert(prefix@ == key_prefix());
        assert(key_prefix().len() == 11);
    }
    let n = connection_string.unicode_len();
    let mut start: usize = 0;
    proof {
        assert(connection_string@.skip(0) =~= connection_string@);
    }
    loop
        invariant
            0 <= start <= n,
            n == connection_string@.len(),
            prefix@ == key_prefix(),
            prefix@.len() == 11,
            extract_key_spec(connection_string@) == extract_key_spec(
                connection_string@.skip(start as int),
            ),
        decreases n - start,
    {
        let ghost s = connection_string@;
        let ghost tail = s.skip(start as int);
        let mut end: usize = start;
        while end < n && connection_string.get_char(end) != ';'
            invariant
                start <= end <= n,
                n == s.len(),
                s == connection_string@,
                forall|k: int| start <= k < end ==> #[trigger] s[k] != ';',
            decreases n - end,
        {
            end = end + 1;
        }
        proof {
            assert(forall|k: int| 0 <= k < tail.len() ==> #[trigger] tail[k] == s[k + start]);
            lemma_first_semi_is(tail, end - start);
        }
        let ghost part = tail.take(end - start);
        let mut matches_prefix = end - start >= 11;
        let mut j: usize = 0;
        while j < 11 && matches_prefix
            invariant
                0 <= j <= 11,
                start + 11 <= n || !matches_prefix,
                end - start >= 11 || !matches_prefix,
                n == s.len(),
                s == connection_string@,
                prefix@ == key_prefix(),
                prefix@.len() == 11,
                matches_prefix ==> forall|k: int| 0 <= k < j ==> #[trigger] s[start + k]
                    == key_prefix()[k],
                !matches_prefix ==> !(part.len() >= 11 && part.take(11) == key_prefix()),
                part == tail.take(end - start),
                tail == s.skip(start as int),
                start <= end <= n,
                forall|k: int| 0 <= k < end - start ==> #[trigger] part[k] == s[k + start],
            decreases 11 - j + (if matches_prefix { 1int } else { 0int }),
        {
            if connection_string.get_char(start + j) != prefix.get_char(j) {
                proof {
                    if part.len() >= 11 && part.take(11) == key_prefix() {
                        assert(part.take(11)[j as int] == part[j as int]);
                        assert(false);
                    }
                }
                matches_prefix = false;
            } else {
                j = j + 1;
            }
        }
        if matches_prefix {
            proof {
                assert forall|k: int| 0 <= k < 11 implies part.take(11)[k] == key_prefix()[k] by {
                    assert(part[k] == s[k + start]);
                    assert(s[start + k] == key_prefix()[k]);
                }
                assert(part.take(11) =~= key_prefix());
            }
            let piece = connection_string.substring_char(start + 11, end);
            let key = piece.to_owned();
            proof {
                assert(part.skip(11) =~= s.subrange(start + 11, end as int));
                assert(extract_key_spec(tail) == Some(key@));
            }
            return Ok(key);
        }
        if end == n {
            proof {
                assert(extract_key_spec(tail) is None);
            }
            return Err(ConfigError::MissingAccountKey);
        }
        proof {
            assert(tail.skip(end - start + 1) =~= s.skip(end + 1));
            assert(extract_key_spec(tail) == extract_key_spec(s.skip(end + 1)));
        }
        start = end + 1;
    }
}

/// The environment values the bootstrap sequence consults, captured once.
pub struct EnvSnapshot {
    /// Value of the cloud indicator variable, if set.
    pub cloud_indicator: Option<String>,
    /// Value of the local secret variable, if set.
    pub local_secret: Option<String>,
    /// Value of the port variable, if set.
    pub port_setting: Option<String>,
}

/// Where the storage secret comes from.
#[derive(Debug)]
pub enum SecretSource {
    /// Cloud mode: fetch the named secret from the vault.
    Vault,
    /// Local mode: the secret is the value of the local secret variable.
    LocalValue(String),
}

/// The typed configuration the bootstrap sequence produces; everything after
/// startup depends only on this value.
#[derive(Debug)]
pub struct BootPlan {
    pub running_in_cloud: bool,
    pub secret_source: SecretSource,
    pub port: u16,
}

/// The port the server listens on: the default when the variable is unset,
/// otherwise the parsed value.
pub open spec fn resolved_port_spec(port_setting: Option<String>) -> Option<u16> {
    match port_setting {
        None => Some(DEFAULT_PORT),
        Some(s) => parse_port_spec(s@),
    }
}

/// How the whole configuration resolves: the secret source is settled first
/// (missing local secret is fatal in local mode), then the port.
pub open spec fn resolve_spec(env: EnvSnapshot) -> Result<BootPlan, ConfigError> {
    let cloud = cloud_mode_spec(env.cloud_indicator);
    if !cloud && env.local_secret is None {
        Err(ConfigError::MissingLocalSecret)
    } else if resolved_port_spec(env.port_setting) is None {
        Err(ConfigError::InvalidPort)
    } else {
        Ok(
            BootPlan {
                running_in_cloud: cloud,
                secret_source: if cloud {
                    SecretSource::Vault
                } else {
                    SecretSource::LocalValue(env.local_secret.unwrap())
                },
                port: resolved_port_spec(env.port_setting).unwrap(),
            },
        )
    }
}

/// Resolves the configuration from the captured environment, once, at
/// startup.
pub fn resolve_boot_plan(env: EnvSnapshot) -> (r: Result<BootPlan, ConfigError>)
    ensures
        r == resolve_spec(env),
{
    let cloud = probe_environment(&env.cloud_indicator);
    let secret_source = if cloud {
        SecretSource::Vault
    } else {
        match env.local_secret {
            Some(secret) => SecretSource::LocalValue(secret),
            None => {
                return Err(ConfigError::MissingLocalSecret);
            },
        }
    };
    let port = match &env.port_setting {
        None => DEFAULT_PORT,
        Some(s) => match parse_port(s.as_str()) {
            Ok(p) => p,
            Err(e) => {
                return Err(e);
            },
        },
    };
    Ok(BootPlan { running_in_cloud: cloud, secret_source, port })
}

/// When the cloud indicator is present, the local secret variable is never
/// consulted: two environments that agree on the indicator and the port
/// setting resolve identically, whatever their local secret values.
pub proof fn lemma_cloud_mode_ignores_local_secret(e1: EnvSnapshot, e2: EnvSnapshot)
    requires
        e1.cloud_indicator is Some,
        e2.cloud_indicator is Some,
        e1.port_setting == e2.port_setting,
    ensures
        resolve_spec(e1) == resolve_spec(e2),
{
}

/// When the cloud indicator is absent, the secret is sourced only from the
/// local secret variable: a successful resolution carries exactly its value.
pub proof fn lemma_local_mode_uses_local_secret(env: EnvSnapshot)
    requires
        env.cloud_indicator is None,
        resolve_spec(env) is Ok,
    ensures
        env.local_secret is Some,
        resolve_spec(env).unwrap().secret_source == SecretSource::LocalValue(
            env.local_secret.unwrap(),
        ),
        !resolve_spec(env).unwrap().running_in_cloud,
{
}

/// With neither the cloud indicator nor the local secret variable set,
/// resolution fails before anything else is attempted.
pub proof fn lemma_no_secret_is_fatal(env: EnvSnapshot)
    requires
        env.cloud_indicator is None,
        env.local_secret is None,
    ensures
        resolve_spec(env) == Err::<BootPlan, ConfigError>(ConfigError::MissingLocalSecret),
{
}

/// An unset port variable resolves to the default port; a set one resolves
/// to its parsed value, and an unparsable one is fatal.
pub proof fn lemma_port_resolution(env: EnvSnapshot)
    requires
        cloud_mode_spec(env.cloud_indicator) || env.local_secret is Some,
    ensures
        env.port_setting is None ==> resolve_spec(env) is Ok && resolve_spec(
            env,
        ).unwrap().port == DEFAULT_PORT,
        env.port_setting is Some ==> match parse_port_spec(env.port_setting.unwrap()@) {
            Some(p) => resolve_spec(env) is Ok && resolve_spec(env).unwrap().port == p,
            None => resolve_spec(env) == Err::<BootPlan, ConfigError>(ConfigError::InvalidPort),
        },
{
}

} // verus!
