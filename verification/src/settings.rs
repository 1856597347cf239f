//! What a certification run is asked to do, of the command line and the
//! configuration file.

use std::path::PathBuf;

use vstd::prelude::*;
use vstd::string::*;

use crate::common_name::{
    accepted_common_name_is_safe, common_name_message, is_forbidden, parse_common_name,
    read_common_name, CommonNameFault, MAX_COMMON_NAME_LEN,
};
use crate::san::{parse_san, read_san, san_message, san_names, SanEntry, SanFault, SanName};
use crate::text::{begins_with, optional_text, quote_text, quoted_text, texts, trimmed};

verus! {

/// A path of the file system, which nothing here looks into.
#[verifier::external_type_specification]
#[verifier::external_body]
pub struct ExPathBuf(std::path::PathBuf);

/// A clone of a path is that path.
pub assume_specification[ <PathBuf as Clone>::clone ](path: &PathBuf) -> (r: PathBuf)
    ensures
        r == *path,
;

/// The path that a text stands for.
pub uninterp spec fn path_from(text: Seq<char>) -> PathBuf;

/// Calls `std::path::PathBuf::from`: the result is a function of the text alone.
#[verifier::external_body]
fn path_of(text: &str) -> (r: PathBuf)
    ensures
        r == path_from(text@),
{
    PathBuf::from(text)
}

/// How requests to the service are tried again.
#[derive(Clone, Copy, Debug, PartialEq, Eq)]
pub struct RetryConfig {
    /// The greatest number of further attempts.
    pub max_retries: u32,
    /// The least delay between attempts, in seconds.
    pub min_backoff_secs: u64,
    /// The greatest delay between attempts, in seconds.
    pub max_backoff_secs: u64,
}

/// The flags that all commands share.
pub struct Cli {
    /// Enable debug output.
    pub debug: bool,
    /// URI of the service.
    pub server_uri: Option<String>,
    /// File that holds the API key.
    pub api_key: Option<PathBuf>,
    /// Domain policy to request.
    pub domain_policy: Option<String>,
    /// Policy id to request.
    pub policy_id: Option<String>,
    /// Root certificate that the service certificate is signed with.
    pub cert_path: Option<PathBuf>,
    /// The greatest number of further attempts.
    pub max_retries: Option<u32>,
    /// The least delay between attempts, in seconds.
    pub retry_min_backoff_secs: Option<u64>,
    /// The greatest delay between attempts, in seconds.
    pub retry_max_backoff_secs: Option<u64>,
    /// Leave GPUs out of the attestation: the flag was given, or nothing can
    /// collect GPU evidence.
    pub no_gpu: bool,
}

impl Default for Cli {
    /// No flag at all.
    fn default() -> (r: Cli)
        ensures
            !r.debug && !r.no_gpu,
            r.server_uri is None && r.api_key is None && r.domain_policy is None,
            r.policy_id is None && r.cert_path is None && r.max_retries is None,
            r.retry_min_backoff_secs is None && r.retry_max_backoff_secs is None,
    {
        Cli {
            debug: false,
            server_uri: None,
            api_key: None,
            domain_policy: None,
            policy_id: None,
            cert_path: None,
            max_retries: None,
            retry_min_backoff_secs: None,
            retry_max_backoff_secs: None,
            no_gpu: false,
        }
    }
}

/// The flags of the `certify` command.
pub struct CertifyArgs {
    /// Renew an existing certificate.
    pub renew: bool,
    /// Directory in which the certificate materials are written and read.
    pub write_dir: Option<PathBuf>,
    /// Allow overwriting an existing `key.pem`.
    pub force: bool,
    /// Common Name for the signing request.
    pub common_name: Option<String>,
    /// Subject Alternative Names to request.
    pub sans: Vec<SanEntry>,
}

/// The configuration keys of the `certify` command.
pub struct CertifyConfig {
    /// Directory in which the certificate materials are written and read.
    pub write_dir: Option<PathBuf>,
    /// Allow overwriting an existing `key.pem`.
    pub force: Option<bool>,
    /// Common Name for the signing request.
    pub common_name: Option<String>,
    /// Subject Alternative Names to request, as `TYPE:VALUE` tokens.
    pub sans: Option<Vec<String>>,
}

impl Default for CertifyConfig {
    /// No key at all.
    fn default() -> (r: CertifyConfig)
        ensures
            r.write_dir is None && r.force is None && r.common_name is None && r.sans is None,
    {
        CertifyConfig { write_dir: None, force: None, common_name: None, sans: None }
    }
}

/// The configuration file.
pub struct Config {
    /// URI of the service.
    pub server_uri: Option<String>,
    /// File that holds the API key.
    pub api_key: Option<PathBuf>,
    /// Domain policy to request.
    pub domain_policy: Option<String>,
    /// Policy id to request.
    pub policy_id: Option<String>,
    /// Root certificate that the service certificate is signed with.
    pub cert_path: Option<PathBuf>,
    /// The greatest number of further attempts.
    pub max_retries: Option<u32>,
    /// The least delay between attempts, in seconds.
    pub retry_min_backoff_secs: Option<u64>,
    /// The greatest delay between attempts, in seconds.
    pub retry_max_backoff_secs: Option<u64>,
    /// Leave GPUs out of the attestation.
    pub no_gpu: Option<bool>,
    /// The keys of the `certify` command.
    pub certify_config: CertifyConfig,
}

impl Default for Config {
    /// No key at all.
    fn default() -> (r: Config)
        ensures
            r.server_uri is None && r.api_key is None && r.domain_policy is None,
            r.policy_id is None && r.cert_path is None && r.max_retries is None,
            r.retry_min_backoff_secs is None && r.retry_max_backoff_secs is None,
            r.no_gpu is None,
            r.certify_config.write_dir is None && r.certify_config.force is None,
            r.certify_config.common_name is None && r.certify_config.sans is None,
    {
        Config {
            server_uri: None,
            api_key: None,
            domain_policy: None,
            policy_id: None,
            cert_path: None,
            max_retries: None,
            retry_min_backoff_secs: None,
            retry_max_backoff_secs: None,
            no_gpu: None,
            certify_config: CertifyConfig::default(),
        }
    }
}

/// Whether a run obtains a first certificate or renews one.
#[derive(Clone, Copy, Debug, PartialEq, Eq)]
pub enum CertifyMode {
    /// A first certificate, with a fresh key; `force` allows overwriting a key.
    Fresh { force: bool },
    /// A new certificate for the existing key.
    Renew,
}

/// What a run needs to talk to the service.
pub struct CertifySettings {
    /// URI of the service.
    pub server_uri: String,
    /// File that holds the API key.
    pub api_key_path: PathBuf,
    /// The domain whose policy is requested.
    pub policy_domain: String,
    /// The policy id that is requested, if any.
    pub policy_id: Option<String>,
    /// Root certificate that the service certificate is signed with.
    pub cert_path: PathBuf,
    /// How requests are tried again.
    pub retry_config: RetryConfig,
    /// Whether GPUs are attested.
    pub gpu_enabled: bool,
}

/// The first of two values that is there.
pub open spec fn either<T>(first: Option<T>, second: Option<T>) -> Option<T> {
    match first {
        Some(value) => Some(value),
        None => second,
    }
}

/// The value that is there, or another one.
pub open spec fn or_default<T>(value: Option<T>, default: T) -> T {
    match value {
        Some(value) => value,
        None => default,
    }
}

/// The URI of the service: the flag, or else the key.
pub open spec fn given_server_uri(cli: Cli, cfg: Config) -> Option<Seq<char>> {
    optional_text(either(cli.server_uri, cfg.server_uri))
}

/// The policy id: the flag, or else the key.
pub open spec fn given_policy_id(cli: Cli, cfg: Config) -> Option<Seq<char>> {
    optional_text(either(cli.policy_id, cfg.policy_id))
}

/// The policy domain: the domain policy, flag before key; or else the policy id.
pub open spec fn given_policy_domain(cli: Cli, cfg: Config) -> Option<Seq<char>> {
    either(
        optional_text(either(cli.domain_policy, cfg.domain_policy)),
        given_policy_id(cli, cfg),
    )
}

/// Whether a URI has one of the schemes of the service.
pub open spec fn is_http_uri(uri: Seq<char>) -> bool {
    "http://"@.is_prefix_of(uri) || "https://"@.is_prefix_of(uri)
}

/// What is wrong with the settings that were given, if anything is.
pub open spec fn settings_fault(cli: Cli, cfg: Config) -> Option<Seq<char>> {
    match given_server_uri(cli, cfg) {
        None => Some("server URI is required"@),
        Some(uri) => if !is_http_uri(uri) {
            Some(
                "server URI must start with http:// or https:// (got "@ + quoted_text(uri) + ")"@,
            )
        } else if given_policy_domain(cli, cfg) is None {
            Some("policy-domain is required for certify flow"@)
        } else {
            None
        },
    }
}

/// Whether `settings` are those that were given, flags before keys, with the
/// built-in defaults for what was not.
pub open spec fn are_settings(settings: CertifySettings, cli: Cli, cfg: Config) -> bool {
    &&& given_server_uri(cli, cfg) == Some(settings.server_uri@)
    &&& given_policy_domain(cli, cfg) == Some(settings.policy_domain@)
    &&& given_policy_id(cli, cfg) == optional_text(settings.policy_id)
    &&& settings.api_key_path == or_default(
        either(cli.api_key, cfg.api_key),
        path_from("/etc/tas_agent/api-key"@),
    )
    &&& settings.cert_path == or_default(
        either(cli.cert_path, cfg.cert_path),
        path_from("/etc/tas_agent/root_cert.pem"@),
    )
    &&& settings.retry_config.max_retries == or_default(
        either(cli.max_retries, cfg.max_retries),
        3,
    )
    &&& settings.retry_config.min_backoff_secs == or_default(
        either(cli.retry_min_backoff_secs, cfg.retry_min_backoff_secs),
        1,
    )
    &&& settings.retry_config.max_backoff_secs == or_default(
        either(cli.retry_max_backoff_secs, cfg.retry_max_backoff_secs),
        30,
    )
    &&& settings.gpu_enabled == (!cli.no_gpu && !or_default(cfg.no_gpu, false))
}

fn first_text(first: &Option<String>, second: &Option<String>) -> (r: Option<String>)
    ensures
        optional_text(r) == optional_text(either(*first, *second)),
{
    match first {
        Some(text) => Some(text.clone()),
        None => match second {
            Some(text) => Some(text.clone()),
            None => None,
        },
    }
}

fn first_path(first: &Option<PathBuf>, second: &Option<PathBuf>) -> (r: Option<PathBuf>)
    ensures
        r == either(*first, *second),
{
    match first {
        Some(path) => Some(path.clone()),
        None => match second {
            Some(path) => Some(path.clone()),
            None => None,
        },
    }
}

fn path_or(first: &Option<PathBuf>, second: &Option<PathBuf>, default: &str) -> (r: PathBuf)
    ensures
        r == or_default(either(*first, *second), path_from(default@)),
{
    match first_path(first, second) {
        Some(path) => path,
        None => path_of(default),
    }
}

impl CertifySettings {
    /// Resolves the settings: flags override configuration keys, and built-in
    /// defaults stand for what neither gives.
    ///
    /// # Errors
    ///
    /// Returns a message if there is no URI of the service or it has another
    /// scheme than `http` or `https`, or if there is no policy domain.
    pub fn resolve(cli: &Cli, cfg: &Config) -> (r: Result<CertifySettings, String>)
        ensures
            match r {
                Ok(settings) => settings_fault(*cli, *cfg) is None && are_settings(
                    settings,
                    *cli,
                    *cfg,
                ),
                Err(message) => settings_fault(*cli, *cfg) == Some(message@),
            },
    {
        let server_uri: String = match first_text(&cli.server_uri, &cfg.server_uri) {
            Some(uri) => uri,
            None => return Err("server URI is required".to_owned()),
        };
        if !begins_with(server_uri.as_str(), "http://") && !begins_with(
            server_uri.as_str(),
            "https://",
        ) {
            let mut message = "server URI must start with http:// or https:// (got ".to_owned();
            message.append(quote_text(server_uri.as_str()).as_str());
            message.append(")");
            return Err(message);
        }
        let api_key_path: PathBuf = path_or(&cli.api_key, &cfg.api_key, "/etc/tas_agent/api-key");
        let policy_id: Option<String> = first_text(&cli.policy_id, &cfg.policy_id);
        let policy_domain: String = match first_text(&cli.domain_policy, &cfg.domain_policy) {
            Some(domain) => domain,
            None => match &policy_id {
                Some(id) => id.clone(),
                None => return Err("policy-domain is required for certify flow".to_owned()),
            },
        };
        let cert_path: PathBuf = path_or(
            &cli.cert_path,
            &cfg.cert_path,
            "/etc/tas_agent/root_cert.pem",
        );
        let retry_config = RetryConfig {
            max_retries: match (cli.max_retries, cfg.max_retries) {
                (Some(n), _) => n,
                (None, Some(n)) => n,
                (None, None) => 3,
            },
            min_backoff_secs: match (cli.retry_min_backoff_secs, cfg.retry_min_backoff_secs) {
                (Some(n), _) => n,
                (None, Some(n)) => n,
                (None, None) => 1,
            },
            max_backoff_secs: match (cli.retry_max_backoff_secs, cfg.retry_max_backoff_secs) {
                (Some(n), _) => n,
                (None, Some(n)) => n,
                (None, None) => 30,
            },
        };
        let gpu_disabled_in_config: bool = match cfg.no_gpu {
            Some(no_gpu) => no_gpu,
            None => false,
        };
        Ok(
            CertifySettings {
                server_uri,
                api_key_path,
                policy_domain,
                policy_id,
                cert_path,
                retry_config,
                gpu_enabled: !cli.no_gpu && !gpu_disabled_in_config,
            },
        )
    }
}

/// What a certification run is to do.
pub struct CertifyPlan {
    /// What it needs to talk to the service.
    pub settings: CertifySettings,
    /// Directory in which the certificate materials are written and read.
    pub write_dir: PathBuf,
    /// Whether it obtains a first certificate or renews one.
    pub mode: CertifyMode,
    /// The Common Name that was asked for; without one it is generated.
    pub common_name: Option<String>,
    /// The Subject Alternative Names that were asked for.
    pub sans: Vec<SanEntry>,
}

/// The mode: renewal where the flag says so; otherwise overwriting a key is
/// allowed where the flag or the key says so.
pub open spec fn planned_mode(args: CertifyArgs, cfg: Config) -> CertifyMode {
    if args.renew {
        CertifyMode::Renew
    } else {
        CertifyMode::Fresh { force: args.force || or_default(cfg.certify_config.force, false) }
    }
}

/// The Common Name that was asked for, flag before key, as validation gives it;
/// or the message where it is refused.
pub open spec fn planned_common_name(args: CertifyArgs, cfg: Config) -> Result<
    Option<Seq<char>>,
    Seq<char>,
> {
    match optional_text(either(args.common_name, cfg.certify_config.common_name)) {
        None => Ok(None),
        Some(text) => match read_common_name(text) {
            Ok(cn) => Ok(Some(cn)),
            Err(fault) => Err("invalid common name: "@ + common_name_message(fault)),
        },
    }
}

/// The names that `TYPE:VALUE` tokens of the configuration request, in order; or
/// the message for the first one that is refused.
pub open spec fn configured_sans(tokens: Seq<Seq<char>>) -> Result<Seq<SanName>, Seq<char>>
    decreases tokens.len(),
{
    if tokens.len() == 0 {
        Ok(Seq::empty())
    } else {
        match configured_sans(tokens.drop_last()) {
            Err(message) => Err(message),
            Ok(names) => match read_san(tokens.last()) {
                Ok(name) => Ok(names.push(name)),
                Err(fault) => Err(
                    "invalid SAN in config: "@ + san_message(tokens.last(), fault),
                ),
            },
        }
    }
}

/// The Subject Alternative Names that were asked for: those of the flags; where
/// there are none, those of the key; or the message where one is refused.
pub open spec fn planned_sans(args: CertifyArgs, cfg: Config) -> Result<
    Seq<SanName>,
    Seq<char>,
> {
    if args.sans@.len() > 0 {
        Ok(san_names(args.sans@))
    } else {
        match cfg.certify_config.sans {
            Some(tokens) => configured_sans(texts(tokens@)),
            None => Ok(Seq::empty()),
        }
    }
}

/// What is wrong with what was asked for, if anything is: the directory first,
/// then the Common Name, the Subject Alternative Names and the settings.
pub open spec fn plan_fault(cli: Cli, args: CertifyArgs, cfg: Config) -> Option<Seq<char>> {
    if either(args.write_dir, cfg.certify_config.write_dir) is None {
        Some("--write-dir is required for the certify command"@)
    } else {
        match planned_common_name(args, cfg) {
            Err(message) => Some(message),
            Ok(_) => match planned_sans(args, cfg) {
                Err(message) => Some(message),
                Ok(_) => settings_fault(cli, cfg),
            },
        }
    }
}

/// Whether `plan` is what was asked for.
pub open spec fn is_plan(plan: CertifyPlan, cli: Cli, args: CertifyArgs, cfg: Config) -> bool {
    &&& are_settings(plan.settings, cli, cfg)
    &&& either(args.write_dir, cfg.certify_config.write_dir) == Some(plan.write_dir)
    &&& plan.mode == planned_mode(args, cfg)
    &&& planned_common_name(args, cfg) == Ok::<Option<Seq<char>>, Seq<char>>(
        optional_text(plan.common_name),
    )
    &&& planned_sans(args, cfg) == Ok::<Seq<SanName>, Seq<char>>(san_names(plan.sans@))
}

/// Whether the Common Name of a plan, where it has one, has been validated.
pub open spec fn has_valid_name(plan: CertifyPlan) -> bool {
    plan.common_name matches Some(cn) ==> read_common_name(cn@) == Ok::<
        Seq<char>,
        CommonNameFault,
    >(cn@)
}

/// Copies entries, in order.
fn copy_sans(sans: &Vec<SanEntry>) -> (r: Vec<SanEntry>)
    ensures
        san_names(r@) == san_names(sans@),
{
    let mut copy: Vec<SanEntry> = Vec::new();
    let mut i: usize = 0;
    while i < sans.len()
        invariant
            i <= sans@.len(),
            copy@.len() == i,
            forall|j: int| 0 <= j < i ==> (#[trigger] copy@[j])@ == sans@[j]@,
        decreases sans@.len() - i,
    {
        copy.push(sans[i].clone());
        i += 1;
    }
    assert(san_names(copy@) =~= san_names(sans@));
    copy
}

/// Parses the `TYPE:VALUE` tokens of the configuration.
fn parse_sans(tokens: &Vec<String>) -> (r: Result<Vec<SanEntry>, String>)
    ensures
        match (r, configured_sans(texts(tokens@))) {
            (Ok(sans), Ok(names)) => san_names(sans@) == names,
            (Err(message), Err(text)) => message@ == text,
            _ => false,
        },
{
    let ghost all = texts(tokens@);
    let mut sans: Vec<SanEntry> = Vec::new();
    let mut i: usize = 0;
    assert(san_names(sans@) =~= Seq::empty());
    while i < tokens.len()
        invariant
            i <= tokens@.len(),
            all == texts(tokens@),
            configured_sans(all.take(i as int)) == Ok::<Seq<SanName>, Seq<char>>(san_names(sans@)),
        decreases tokens@.len() - i,
    {
        let ghost before = san_names(sans@);
        proof {
            assert(all.take(i + 1).drop_last() =~= all.take(i as int));
            assert(all.take(i + 1).last() == tokens@[i as int]@);
        }
        match parse_san(tokens[i].as_str()) {
            Ok(san) => {
                sans.push(san);
                assert(san_names(sans@) =~= before.push(san@));
            },
            Err(reason) => {
                proof {
                    lemma_first_refused(all, i + 1);
                }
                return Err("invalid SAN in config: ".to_owned().concat(reason.as_str()));
            },
        }
        i += 1;
    }
    assert(all.take(all.len() as int) =~= all);
    Ok(sans)
}

proof fn lemma_first_refused(tokens: Seq<Seq<char>>, n: int)
    requires
        0 <= n <= tokens.len(),
        configured_sans(tokens.take(n)) is Err,
    ensures
        configured_sans(tokens) == configured_sans(tokens.take(n)),
    decreases tokens.len() - n,
{
    if n < tokens.len() {
        assert(tokens.take(n + 1).drop_last() =~= tokens.take(n));
        lemma_first_refused(tokens, n + 1);
    } else {
        assert(tokens.take(n) =~= tokens);
    }
}

/// Makes the plan of a certification run, of the flags and the configuration;
/// flags override configuration keys. The Common Name and the Subject
/// Alternative Names are the same for a first certificate and a renewal.
///
/// # Errors
///
/// Returns a message for a missing directory, an invalid Common Name or Subject
/// Alternative Name, and what [`CertifySettings::resolve`] refuses, in this
/// order.
pub fn plan_certify(cli: &Cli, args: &CertifyArgs, cfg: &Config) -> (r: Result<
    CertifyPlan,
    String,
>)
    ensures
        match r {
            Ok(plan) => plan_fault(*cli, *args, *cfg) is None && is_plan(plan, *cli, *args, *cfg)
                && has_valid_name(plan),
            Err(message) => plan_fault(*cli, *args, *cfg) == Some(message@),
        },
{
    let write_dir: PathBuf = match first_path(&args.write_dir, &cfg.certify_config.write_dir) {
        Some(write_dir) => write_dir,
        None => return Err("--write-dir is required for the certify command".to_owned()),
    };
    let mode = if args.renew {
        CertifyMode::Renew
    } else {
        let force_in_config: bool = match cfg.certify_config.force {
            Some(force) => force,
            None => false,
        };
        CertifyMode::Fresh { force: args.force || force_in_config }
    };
    let common_name: Option<String> = match first_text(
        &args.common_name,
        &cfg.certify_config.common_name,
    ) {
        Some(text) => match parse_common_name(text.as_str()) {
            Ok(cn) => Some(cn),
            Err(reason) => return Err(
                "invalid common name: ".to_owned().concat(reason.as_str()),
            ),
        },
        None => None,
    };
    let sans: Vec<SanEntry> = if args.sans.len() > 0 {
        copy_sans(&args.sans)
    } else {
        match &cfg.certify_config.sans {
            Some(tokens) => match parse_sans(tokens) {
                Ok(sans) => sans,
                Err(message) => return Err(message),
            },
            None => {
                let none: Vec<SanEntry> = Vec::new();
                assert(san_names(none@) =~= Seq::empty());
                none
            },
        }
    };
    let settings: CertifySettings = match CertifySettings::resolve(cli, cfg) {
        Ok(settings) => settings,
        Err(message) => return Err(message),
    };
    let plan = CertifyPlan { settings, write_dir, mode, common_name, sans };
    proof {
        planned_common_name_is_valid(plan, *cli, *args, *cfg);
    }
    Ok(plan)
}

/// A flag overrides the configuration: what it gives is what the settings hold,
/// whatever the configuration holds.
pub proof fn flags_override_configuration(settings: CertifySettings, cli: Cli, cfg: Config)
    requires
        are_settings(settings, cli, cfg),
    ensures
        cli.server_uri matches Some(uri) ==> settings.server_uri@ == uri@,
        cli.api_key matches Some(path) ==> settings.api_key_path == path,
        cli.domain_policy matches Some(domain) ==> settings.policy_domain@ == domain@,
        cli.policy_id matches Some(id) ==> optional_text(settings.policy_id) == Some(id@),
        cli.cert_path matches Some(path) ==> settings.cert_path == path,
        cli.max_retries matches Some(n) ==> settings.retry_config.max_retries == n,
        cli.retry_min_backoff_secs matches Some(n) ==> settings.retry_config.min_backoff_secs == n,
        cli.retry_max_backoff_secs matches Some(n) ==> settings.retry_config.max_backoff_secs == n,
        cli.no_gpu ==> !settings.gpu_enabled,
{
}

/// GPUs are attested unless the flag or the configuration leaves them out.
pub proof fn gpus_are_attested_by_default(settings: CertifySettings, cli: Cli, cfg: Config)
    requires
        are_settings(settings, cli, cfg),
    ensures
        settings.gpu_enabled <==> !cli.no_gpu && cfg.no_gpu != Some(true),
{
}

/// The Common Name and the Subject Alternative Names do not depend on the mode:
/// they are the same for a first certificate and a renewal.
pub proof fn names_do_not_depend_on_mode(
    one: CertifyPlan,
    other: CertifyPlan,
    cli: Cli,
    one_args: CertifyArgs,
    other_args: CertifyArgs,
    cfg: Config,
)
    requires
        one_args.common_name == other_args.common_name,
        one_args.sans == other_args.sans,
        is_plan(one, cli, one_args, cfg),
        is_plan(other, cli, other_args, cfg),
    ensures
        optional_text(one.common_name) == optional_text(other.common_name),
        san_names(one.sans@) == san_names(other.sans@),
{
}

/// A Common Name in a plan has been validated, wherever it came from.
pub proof fn planned_common_name_is_valid(
    plan: CertifyPlan,
    cli: Cli,
    args: CertifyArgs,
    cfg: Config,
)
    requires
        is_plan(plan, cli, args, cfg),
    ensures
        has_valid_name(plan),
        plan.common_name matches Some(cn) ==> {
            &&& 1 <= cn@.len() <= MAX_COMMON_NAME_LEN
            &&& forall|i: int| 0 <= i < cn@.len() ==> !is_forbidden(#[trigger] cn@[i])
        },
{
    if plan.common_name is Some {
        let text = either(args.common_name, cfg.certify_config.common_name)->Some_0@;
        accepted_common_name_is_safe(text);
    }
}

/// Where a flag is not given, the configuration key counts; and where that is not
/// given either, the built-in default does.
pub proof fn configuration_and_defaults_fill_in(settings: CertifySettings, cli: Cli, cfg: Config)
    requires
        are_settings(settings, cli, cfg),
    ensures
        cli.server_uri is None ==> (cfg.server_uri matches Some(uri) && settings.server_uri@
            == uri@),
        cli.api_key is None ==> settings.api_key_path == (match cfg.api_key {
            Some(path) => path,
            None => path_from("/etc/tas_agent/api-key"@),
        }),
        cli.cert_path is None ==> settings.cert_path == (match cfg.cert_path {
            Some(path) => path,
            None => path_from("/etc/tas_agent/root_cert.pem"@),
        }),
        cli.max_retries is None ==> settings.retry_config.max_retries == (match cfg.max_retries {
            Some(n) => n,
            None => 3,
        }),
        cli.retry_min_backoff_secs is None ==> settings.retry_config.min_backoff_secs == (
        match cfg.retry_min_backoff_secs {
            Some(n) => n,
            None => 1,
        }),
        cli.retry_max_backoff_secs is None ==> settings.retry_config.max_backoff_secs == (
        match cfg.retry_max_backoff_secs {
            Some(n) => n,
            None => 30,
        }),
        cli.policy_id is None ==> (match (settings.policy_id, cfg.policy_id) {
            (Some(held), Some(given)) => held@ == given@,
            (None, None) => true,
            _ => false,
        }),
        settings.gpu_enabled == (!cli.no_gpu && !(cfg.no_gpu == Some(true))),
{
}

/// The policy domain is the domain policy of the flag, or else that of the key, or
/// else the policy id of the flag, or else that of the key.
pub proof fn policy_domain_is_first_given(settings: CertifySettings, cli: Cli, cfg: Config)
    requires
        are_settings(settings, cli, cfg),
    ensures
        match (cli.domain_policy, cfg.domain_policy, cli.policy_id, cfg.policy_id) {
            (Some(given), _, _, _) => settings.policy_domain@ == given@,
            (None, Some(given), _, _) => settings.policy_domain@ == given@,
            (None, None, Some(given), _) => settings.policy_domain@ == given@,
            (None, None, None, Some(given)) => settings.policy_domain@ == given@,
            (None, None, None, None) => false,
        },
{
}

/// Settings are refused exactly where no URI of the service is given, where the
/// one that counts begins with neither `http://` nor `https://`, or where neither
/// a domain policy nor a policy id is given; and the message says which.
pub proof fn settings_are_refused_exactly(cli: Cli, cfg: Config)
    ensures
        ({
            let uri = match cli.server_uri {
                Some(given) => Some(given@),
                None => match cfg.server_uri {
                    Some(given) => Some(given@),
                    None => None,
                },
            };
            let has_domain = cli.domain_policy is Some || cfg.domain_policy is Some
                || cli.policy_id is Some || cfg.policy_id is Some;
            match uri {
                None => settings_fault(cli, cfg) == Some("server URI is required"@),
                Some(uri) => if !("http://"@.is_prefix_of(uri) || "https://"@.is_prefix_of(uri)) {
                    settings_fault(cli, cfg) == Some(
                        "server URI must start with http:// or https:// (got "@ + quoted_text(uri)
                            + ")"@,
                    )
                } else if !has_domain {
                    settings_fault(cli, cfg) == Some("policy-domain is required for certify flow"@)
                } else {
                    settings_fault(cli, cfg) is None
                }
            }
        }),
{
}

/// What a plan is made of: the directory of the flag, or else that of the key;
/// renewal exactly where the flag asks for it, and otherwise overwriting a key
/// exactly where the flag or the key allows it; the Common Name of the flag, or
/// else that of the key; and the names of the flags, or, without any, those that
/// the tokens of the key request, each in its place.
pub proof fn plan_is_what_was_asked(
    plan: CertifyPlan,
    cli: Cli,
    args: CertifyArgs,
    cfg: Config,
    i: int,
)
    requires
        is_plan(plan, cli, args, cfg),
    ensures
        args.write_dir matches Some(dir) ==> plan.write_dir == dir,
        args.write_dir is None ==> cfg.certify_config.write_dir == Some(plan.write_dir),
        args.renew <==> plan.mode is Renew,
        plan.mode matches CertifyMode::Fresh { force } ==> force == (args.force
            || cfg.certify_config.force == Some(true)),
        args.common_name is None && cfg.certify_config.common_name is None
            ==> plan.common_name is None,
        args.common_name matches Some(given) ==> (plan.common_name matches Some(cn) && cn@
            == trimmed(given@)),
        args.common_name is None ==> (cfg.certify_config.common_name matches Some(given) ==> (
        plan.common_name matches Some(cn) && cn@ == trimmed(given@))),
        args.sans@.len() > 0 ==> plan.sans@.len() == args.sans@.len() && (0 <= i < args.sans@.len()
            ==> plan.sans@[i]@ == args.sans@[i]@),
        args.sans@.len() == 0 ==> (cfg.certify_config.sans matches Some(tokens) ==> plan.sans@.len()
            == tokens@.len() && (0 <= i < tokens@.len() ==> read_san(tokens@[i]@) == Ok::<
            SanName,
            SanFault,
        >(plan.sans@[i]@))),
        args.sans@.len() == 0 && cfg.certify_config.sans is None ==> plan.sans@.len() == 0,
{
    let names = san_names(plan.sans@);
    assert(names.len() == plan.sans@.len());
    assert(san_names(args.sans@).len() == args.sans@.len());
    if args.sans@.len() > 0 && 0 <= i < args.sans@.len() {
        assert(names[i] == plan.sans@[i]@);
        assert(san_names(args.sans@)[i] == args.sans@[i]@);
    }
    if args.sans@.len() == 0 && cfg.certify_config.sans is Some {
        let tokens = texts(cfg.certify_config.sans->0@);
        lemma_configured_names(tokens, i);
        if 0 <= i < tokens.len() {
            assert(names[i] == plan.sans@[i]@);
        }
    }
}

proof fn lemma_configured_names(tokens: Seq<Seq<char>>, i: int)
    requires
        configured_sans(tokens) is Ok,
    ensures
        configured_sans(tokens)->Ok_0.len() == tokens.len(),
        0 <= i < tokens.len() ==> read_san(tokens[i]) == Ok::<SanName, SanFault>(
            configured_sans(tokens)->Ok_0[i],
        ),
    decreases tokens.len(),
{
    if tokens.len() > 0 {
        lemma_configured_names(tokens.drop_last(), i);
    }
}

/// A configured token that is refused stops the plan with its own message where
/// all tokens before it are accepted and no flag gives names.
pub proof fn first_refused_token_is_reported(tokens: Seq<Seq<char>>, at: int)
    requires
        0 <= at < tokens.len(),
        read_san(tokens[at]) is Err,
        forall|i: int| 0 <= i < at ==> read_san(#[trigger] tokens[i]) is Ok,
    ensures
        configured_sans(tokens) == Err::<Seq<SanName>, Seq<char>>(
            "invalid SAN in config: "@ + san_message(tokens[at], read_san(tokens[at])->Err_0),
        ),
{
    lemma_accepted_tokens(tokens, at);
    assert(tokens.take(at + 1).drop_last() =~= tokens.take(at));
    assert(tokens.take(at + 1).last() == tokens[at]);
    lemma_first_refused(tokens, at + 1);
}

proof fn lemma_accepted_tokens(tokens: Seq<Seq<char>>, n: int)
    requires
        0 <= n <= tokens.len(),
        forall|i: int| 0 <= i < n ==> read_san(#[trigger] tokens[i]) is Ok,
    ensures
        configured_sans(tokens.take(n)) is Ok,
    decreases n,
{
    if n > 0 {
        lemma_accepted_tokens(tokens, n - 1);
        assert(tokens.take(n).drop_last() =~= tokens.take(n - 1));
        assert(tokens.take(n).last() == tokens[n - 1]);
    }
}

/// What stops a plan, in this order: no directory, a Common Name that is refused,
/// a configured name that is refused where no flag gives names, and what stops
/// the settings; and nothing else.
pub proof fn plan_is_refused_exactly(cli: Cli, args: CertifyArgs, cfg: Config)
    ensures
        ({
            let no_dir = args.write_dir is None && cfg.certify_config.write_dir is None;
            let cn = match args.common_name {
                Some(given) => Some(given@),
                None => match cfg.certify_config.common_name {
                    Some(given) => Some(given@),
                    None => None,
                },
            };
            let bad_cn = cn matches Some(text) && read_common_name(text) is Err;
            let bad_sans = args.sans@.len() == 0 && (cfg.certify_config.sans matches Some(tokens)
                && exists|i: int| 0 <= i < tokens@.len() && read_san((#[trigger] tokens@[i])@) is Err);
            if no_dir {
                plan_fault(cli, args, cfg) == Some(
                    "--write-dir is required for the certify command"@,
                )
            } else if bad_cn {
                plan_fault(cli, args, cfg) == Some(
                    "invalid common name: "@ + common_name_message(
                        read_common_name(cn->0)->Err_0,
                    ),
                )
            } else if bad_sans {
                plan_fault(cli, args, cfg) == Some(
                    configured_sans(texts(cfg.certify_config.sans->0@))->Err_0,
                ) && configured_sans(texts(cfg.certify_config.sans->0@)) is Err
            } else {
                plan_fault(cli, args, cfg) == settings_fault(cli, cfg)
            }
        }),
{
    if args.sans@.len() == 0 && cfg.certify_config.sans is Some {
        let strings = cfg.certify_config.sans->0@;
        let tokens = texts(strings);
        if exists|i: int| 0 <= i < strings.len() && read_san((#[trigger] strings[i])@) is Err {
            let i = choose|i: int| 0 <= i < strings.len() && read_san((#[trigger] strings[i])@) is Err;
            assert(tokens[i] == strings[i]@);
            if configured_sans(tokens) is Ok {
                lemma_configured_names(tokens, i);
            }
        } else {
            assert forall|i: int| 0 <= i < tokens.len() implies read_san(
                #[trigger] tokens[i],
            ) is Ok by {
                assert(tokens[i] == strings[i]@);
            }
            lemma_accepted_tokens(tokens, tokens.len() as int);
            assert(tokens.take(tokens.len() as int) =~= tokens);
        }
    }
}

} // verus!
