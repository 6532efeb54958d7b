//! Service configuration, read from environment variables.
use vstd::prelude::*;
use crate::numbers::{decimal, lemma_parse_decimal_u16, parse_u16, parse_u16_spec};

verus! {

/// The configuration of the service.
#[derive(Clone, Debug)]
pub struct AppConfig {
    pub database_url: String,
    pub s3_region: String,
    pub s3_access_key: String,
    pub s3_secret_key: String,
    pub s3_bucket: String,
    pub s3_endpoint: Option<String>,
    pub openai_api_key: String,
    pub openai_model: String,
    pub host: String,
    pub port: u16,
    pub admin_password: String,
    pub knowledgebase_name: String,
    pub system_prompt_extra: Option<String>,
}

/// The environment variables the configuration is read from, each `None`
/// when unset (or not valid Unicode).
pub struct ConfigVars {
    /// `DATABASE_URL`
    pub database_url: Option<String>,
    /// `S3_REGION`
    pub s3_region: Option<String>,
    /// `S3_ACCESS_KEY`
    pub s3_access_key: Option<String>,
    /// `S3_SECRET_KEY`
    pub s3_secret_key: Option<String>,
    /// `S3_BUCKET`
    pub s3_bucket: Option<String>,
    /// `S3_ENDPOINT`
    pub s3_endpoint: Option<String>,
    /// `OPENAI_API_KEY`
    pub openai_api_key: Option<String>,
    /// `OPENAI_MODEL`
    pub openai_model: Option<String>,
    /// `HOST`
    pub host: Option<String>,
    /// `PORT`
    pub port: Option<String>,
    /// `ADMIN_PASSWORD`
    pub admin_password: Option<String>,
    /// `KNOWLEDGEBASE_NAME`
    pub knowledgebase_name: Option<String>,
    /// `SYSTEM_PROMPT_EXTRA`
    pub system_prompt_extra: Option<String>,
}

/// Why no configuration could be read.
#[derive(PartialEq, Eq, Structural)]
pub enum ConfigError {
    MissingDatabaseUrl,
    MissingS3AccessKey,
    MissingS3SecretKey,
    MissingOpenaiApiKey,
    InvalidPort,
    MissingAdminPassword,
}

/// The text of a variable, or `default` when it is unset.
pub open spec fn or_default(v: Option<String>, default: Seq<char>) -> Seq<char> {
    match v {
        Some(s) => s@,
        None => default,
    }
}

/// The text of a variable when it is set and not empty.
pub open spec fn set_and_nonempty(v: Option<String>) -> Option<Seq<char>> {
    match v {
        Some(s) => if s@.len() > 0 {
            Some(s@)
        } else {
            None
        },
        None => None,
    }
}

/// The text of an optional string.
pub open spec fn opt_text(v: Option<String>) -> Option<Seq<char>> {
    match v {
        Some(s) => Some(s@),
        None => None,
    }
}

/// The port that `PORT` (default `3000`) names, if it is a number.
pub open spec fn port_of(vars: ConfigVars) -> Option<u16> {
    parse_u16_spec(or_default(vars.port, "3000"@))
}

/// The first problem with the variables, in the order the fields are read.
pub open spec fn config_error(vars: ConfigVars) -> Option<ConfigError> {
    if vars.database_url is None {
        Some(ConfigError::MissingDatabaseUrl)
    } else if vars.s3_access_key is None {
        Some(ConfigError::MissingS3AccessKey)
    } else if vars.s3_secret_key is None {
        Some(ConfigError::MissingS3SecretKey)
    } else if vars.openai_api_key is None {
        Some(ConfigError::MissingOpenaiApiKey)
    } else if port_of(vars) is None {
        Some(ConfigError::InvalidPort)
    } else if vars.admin_password is None {
        Some(ConfigError::MissingAdminPassword)
    } else {
        None
    }
}

/// The configuration read from well-formed variables.

pub open spec fn config_matches(c: AppConfig, vars: ConfigVars) -> bool {
    &&& c.database_url@ == or_default(vars.database_url, Seq::empty())
    &&& c.s3_region@ == or_default(vars.s3_region, "nyc3"@)
    &&& c.s3_access_key@ == or_default(vars.s3_access_key, Seq::empty())
    &&& c.s3_secret_key@ == or_default(vars.s3_secret_key, Seq::empty())
    &&& c.s3_bucket@ == or_default(vars.s3_bucket, "knowledgebase-docs"@)
    &&& opt_text(c.s3_endpoint) == set_and_nonempty(vars.s3_endpoint)
    &&& c.openai_api_key@ == or_default(vars.openai_api_key, Seq::empty())
    &&& c.openai_model@ == or_default(vars.openai_model, "gpt-5.4"@)
    &&& c.host@ == or_default(vars.host, "0.0.0.0"@)
    &&& Some(c.port) == port_of(vars)
    &&& c.admin_password@ == or_default(vars.admin_password, Seq::empty())
    &&& c.knowledgebase_name@ == or_default(vars.knowledgebase_name, "Knowledgebase"@)
    &&& opt_text(c.system_prompt_extra) == set_and_nonempty(vars.system_prompt_extra)
}

/// The port of a configuration is the number `PORT` is set to (read as
/// `u16::from_str` reads it), and 3000 when `PORT` is unset; in particular a
/// port written in decimal is that port.
pub proof fn lemma_port_of_vars(vars: ConfigVars)
    ensures
        forall|c: AppConfig|
            #![trigger config_matches(c, vars)]
            config_matches(c, vars) ==> {
                &&& vars.port matches Some(t) ==> Some(c.port) == parse_u16_spec(t@)
                &&& vars.port is None ==> c.port == 3000
                &&& forall|p: u16|
                    vars.port matches Some(t) && t@ == #[trigger] decimal(p as nat) ==> c.port == p
            },
{
    reveal_strlit("3000");
    assert forall|p: u16| parse_u16_spec(#[trigger] decimal(p as nat)) == Some(p) by {
        lemma_parse_decimal_u16(p);
    }
    assert(decimal(3000) == "3000"@) by {
        reveal_with_fuel(decimal, 5);
        assert(decimal(3000) =~= "3000"@);
    }
    lemma_parse_decimal_u16(3000);
}

fn required(v: Option<String>) -> (s: String)
    requires
        v is Some,
    ensures
        s@ == or_default(v, Seq::empty()),
{
    match v {
        Some(s) => s,
        None => String::new(),
    }
}

fn with_default(v: Option<String>, default: &str) -> (s: String)
    ensures
        s@ == or_default(v, default@),
{
    match v {
        Some(s) => s,
        None => default.to_owned(),
    }
}

fn nonempty(v: Option<String>) -> (r: Option<String>)
    ensures
        opt_text(r) == set_and_nonempty(v),
{
    match v {
        Some(s) => if s.as_str().is_empty() {
            None
        } else {
            Some(s)
        },
        None => None,
    }
}

impl ConfigError {
    /// The message the service stops with.
    pub fn message(&self) -> (m: String)
        ensures
            m@ == match *self {
                ConfigError::MissingDatabaseUrl => "DATABASE_URL required"@,
                ConfigError::MissingS3AccessKey => "S3_ACCESS_KEY required"@,
                ConfigError::MissingS3SecretKey => "S3_SECRET_KEY required"@,
                ConfigError::MissingOpenaiApiKey => "OPENAI_API_KEY required"@,
                ConfigError::InvalidPort => "PORT must be a number"@,
                ConfigError::MissingAdminPassword => "ADMIN_PASSWORD required"@,
            },
    {
        match self {
            ConfigError::MissingDatabaseUrl => "DATABASE_URL required".to_owned(),
            ConfigError::MissingS3AccessKey => "S3_ACCESS_KEY required".to_owned(),
            ConfigError::MissingS3SecretKey => "S3_SECRET_KEY required".to_owned(),
            ConfigError::MissingOpenaiApiKey => "OPENAI_API_KEY required".to_owned(),
            ConfigError::InvalidPort => "PORT must be a number".to_owned(),
            ConfigError::MissingAdminPassword => "ADMIN_PASSWORD required".to_owned(),
        }
    }
}

impl AppConfig {
    /// Reads the configuration from the variables: the five secrets and
    /// locations without defaults must be set, `PORT` (default 3000) must be
    /// a decimal port, and the other variables fall back to their defaults.
    /// `S3_ENDPOINT` and `SYSTEM_PROMPT_EXTRA` count as unset when empty.
    pub fn from_vars(vars: ConfigVars) -> (r: Result<AppConfig, ConfigError>)
        ensures
            r is Err <==> config_error(vars) is Some,
            r matches Err(e) ==> config_error(vars) == Some(e),
            r matches Ok(c) ==> config_matches(c, vars),
            r matches Ok(c) ==> (vars.port matches Some(t) ==> Some(c.port) == parse_u16_spec(t@)),
            r matches Ok(c) ==> (vars.port is None ==> c.port == 3000),
            forall|p: u16|
                vars.port matches Some(t) && t@ == #[trigger] decimal(p as nat) ==> (r matches Ok(c) ==> c.port
                    == p),
    {
        let ghost v0 = vars;
        proof {
            lemma_port_of_vars(v0);
        }
        if vars.database_url.is_none() {
            return Err(ConfigError::MissingDatabaseUrl);
        }
        if vars.s3_access_key.is_none() {
            return Err(ConfigError::MissingS3AccessKey);
        }
        if vars.s3_secret_key.is_none() {
            return Err(ConfigError::MissingS3SecretKey);
        }
        if vars.openai_api_key.is_none() {
            return Err(ConfigError::MissingOpenaiApiKey);
        }
        let port_text = with_default(vars.port, "3000");
        let port = match parse_u16(port_text.as_str()) {
            Some(p) => p,
            None => {
                return Err(ConfigError::InvalidPort);
            },
        };
        if vars.admin_password.is_none() {
            return Err(ConfigError::MissingAdminPassword);
        }
        let c = AppConfig {
            database_url: required(vars.database_url),
            s3_region: with_default(vars.s3_region, "nyc3"),
            s3_access_key: required(vars.s3_access_key),
            s3_secret_key: required(vars.s3_secret_key),
            s3_bucket: with_default(vars.s3_bucket, "knowledgebase-docs"),
            s3_endpoint: nonempty(vars.s3_endpoint),
            openai_api_key: required(vars.openai_api_key),
            openai_model: with_default(vars.openai_model, "gpt-5.4"),
            host: with_default(vars.host, "0.0.0.0"),
            port,
            admin_password: required(vars.admin_password),
            knowledgebase_name: with_default(vars.knowledgebase_name, "Knowledgebase"),
            system_prompt_extra: nonempty(vars.system_prompt_extra),
        };
        assert(config_matches(c, v0));
        Ok(c)
    }
}

} // verus!
