//! Command-line arguments, named environments, and the choice of database URL.
use vstd::prelude::*;
use crate::text::{chars_equal, chars_of, lower, lowercase, owned, push_str, push_string, string_chars, string_from_chars};

verus! {

/// The parsed command line.
pub struct Cli {
    /// Log at debug level.
    pub debug: bool,
    /// The database URL given with `--database-url` (or `DATABASE_URL`).
    pub database_url: Option<String>,
    /// The subcommand.
    pub command: Command,
}

/// The subcommands.
pub enum Command {
    /// Create a new seed file from the template.
    Create(CreateArgs),
    /// Apply seed files to a database.
    Apply(ApplyArgs),
    /// Export tables into a seed file.
    Export(ExportArgs),
}

/// A named deployment environment, each with its own database URL variable.
#[derive(Debug, Clone, Copy, PartialEq, Eq, Structural)]
pub enum Environment {
    /// Local development.
    Dev,
    /// Production.
    Prod,
    /// A TiDB playground.
    TidbPlayground,
}

/// Arguments of `create`.
pub struct CreateArgs {
    /// The seed's name, turned into the file name's slug.
    pub name: String,
    /// The directory that receives the file.
    pub directory: String,
    /// An explicit sequence number.
    pub number: Option<u32>,
    /// The minimum width of the sequence number.
    pub width: usize,
}

/// Arguments of `apply`.
pub struct ApplyArgs {
    /// `[ENV] PATH`: an optional environment followed by a file or directory.
    pub env_and_path: Vec<String>,
    /// Build the statements without executing them.
    pub dry_run: bool,
    /// Check the seed files without executing anything.
    pub validate_only: bool,
    /// Skip tables that do not exist in the database schema
    /// instead of returning an error.
    pub ignore_missing_tables: bool,
}

/// Arguments of `export`.
pub struct ExportArgs {
    /// The YAML file to write.
    pub file: String,
    /// The environment whose database is read.
    pub env: Option<Environment>,
    /// The `schema.table` names to export.
    pub tables: Vec<String>,
    /// Write the YAML through an in-memory string rather than streaming it.
    pub pretty: bool,
}

/// The environment variable that holds an environment's database URL.
pub open spec fn env_var_name(e: Environment) -> Seq<char> {
    match e {
        Environment::Dev => "DEV_DATABASE_URL"@,
        Environment::Prod => "PROD_DATABASE_URL"@,
        Environment::TidbPlayground => "TIDB_PLAYGROUND_DATABASE_URL"@,
    }
}

/// The environment that a command-line word names, ignoring ASCII case.
pub open spec fn environment_named(s: Seq<char>) -> Option<Environment> {
    let l = lower(s);
    if l == "dev"@ || l == "development"@ {
        Some(Environment::Dev)
    } else if l == "prod"@ || l == "production"@ {
        Some(Environment::Prod)
    } else if l == "tidb"@ || l == "tidb-playground"@ || l == "tidb_playground"@ {
        Some(Environment::TidbPlayground)
    } else {
        None
    }
}

/// Environment names ignore ASCII case: a word and its lowercase name the same environment.
pub proof fn law_environment_name_ignores_case(word: Seq<char>)
    ensures
        environment_named(lower(word)) == environment_named(word),
{
    assert(lower(lower(word)) =~= lower(word));
}

fn is_word(l: &Vec<char>, word: &str) -> (r: bool)
    ensures
        r == (l@ == word@),
{
    let w = chars_of(word);
    chars_equal(l, &w)
}

impl Environment {
    /// The environment variable that holds this environment's database URL.
    pub fn database_env_var(self) -> (r: &'static str)
        ensures
            r@ == env_var_name(self),
    {
        match self {
            Environment::Dev => "DEV_DATABASE_URL",
            Environment::Prod => "PROD_DATABASE_URL",
            Environment::TidbPlayground => "TIDB_PLAYGROUND_DATABASE_URL",
        }
    }

    /// The environment named by a command-line word (`dev`, `development`, `prod`,
    /// `production`, `tidb`, `tidb-playground`, `tidb_playground`), in any ASCII case.
    pub fn parse_arg(value: &str) -> (r: Option<Environment>)
        ensures
            r == environment_named(value@),
    {
        let l = lowercase(&chars_of(value));
        if is_word(&l, "dev") || is_word(&l, "development") {
            Some(Environment::Dev)
        } else if is_word(&l, "prod") || is_word(&l, "production") {
            Some(Environment::Prod)
        } else if is_word(&l, "tidb") || is_word(&l, "tidb-playground") || is_word(
            &l,
            "tidb_playground",
        ) {
            Some(Environment::TidbPlayground)
        } else {
            None
        }
    }
}

/// Why the arguments of `apply` were refused.
#[derive(Debug, Clone, PartialEq, Eq)]
pub enum ApplyInputError {
    /// No argument at all.
    MissingPath,
    /// A single argument that names an environment: the path is missing.
    MissingPathAfterEnvironment,
    /// The first of two arguments names no environment.
    UnknownEnvironment(String),
    /// The path after the environment is empty.
    EmptyPath(String),
    /// More than two arguments.
    TooManyArguments,
}

/// The message of a refusal of `apply`'s arguments.
pub open spec fn apply_input_message(e: ApplyInputError) -> Seq<char> {
    match e {
        ApplyInputError::MissingPath => "シードファイルまたはディレクトリのパスを指定してください。例: yaml-seeder apply scripts/seeds/n1-seed"@,
        ApplyInputError::MissingPathAfterEnvironment => "シードファイルまたはディレクトリのパスを指定してください。例: yaml-seeder apply dev scripts/seeds/n1-seed"@,
        ApplyInputError::UnknownEnvironment(env) => "環境の指定が不正です: "@ + env@
            + ". 利用可能な値: dev, prod, tidb-playground"@,
        ApplyInputError::EmptyPath(env) => "シードファイルまたはディレクトリのパスを指定してください。例: yaml-seeder apply "@
            + env@ + " scripts/seeds/n1-seed"@,
        ApplyInputError::TooManyArguments => "引数の形式が不正です。`yaml-seeder apply [dev|prod|tidb-playground] <PATH>` の形式で指定してください。"@,
    }
}

impl ApplyInputError {
    /// The message shown for the refusal.
    pub fn message(&self) -> (r: String)
        ensures
            r@ == apply_input_message(*self),
    {
        let mut v: Vec<char> = Vec::new();
        match self {
            ApplyInputError::MissingPath => {
                push_str(&mut v, "シードファイルまたはディレクトリのパスを指定してください。例: yaml-seeder apply scripts/seeds/n1-seed");
            },
            ApplyInputError::MissingPathAfterEnvironment => {
                push_str(&mut v, "シードファイルまたはディレクトリのパスを指定してください。例: yaml-seeder apply dev scripts/seeds/n1-seed");
            },
            ApplyInputError::UnknownEnvironment(env) => {
                push_str(&mut v, "環境の指定が不正です: ");
                push_string(&mut v, env);
                push_str(&mut v, ". 利用可能な値: dev, prod, tidb-playground");
            },
            ApplyInputError::EmptyPath(env) => {
                push_str(&mut v, "シードファイルまたはディレクトリのパスを指定してください。例: yaml-seeder apply ");
                push_string(&mut v, env);
                push_str(&mut v, " scripts/seeds/n1-seed");
            },
            ApplyInputError::TooManyArguments => {
                push_str(&mut v, "引数の形式が不正です。`yaml-seeder apply [dev|prod|tidb-playground] <PATH>` の形式で指定してください。");
            },
        }
        assert(v@ =~= apply_input_message(*self));
        string_from_chars(&v)
    }
}

/// What `parse_apply_inputs` gives for the positional arguments of `apply`.
pub open spec fn apply_inputs(args: Seq<Seq<char>>) -> Result<(Environment, Seq<char>), ApplyInputError> {
    if args.len() == 0 {
        Err(ApplyInputError::MissingPath)
    } else if args.len() == 1 {
        if environment_named(args[0]) is Some {
            Err(ApplyInputError::MissingPathAfterEnvironment)
        } else {
            Ok((Environment::Dev, args[0]))
        }
    } else if args.len() == 2 {
        match environment_named(args[0]) {
            None => Err(ApplyInputError::UnknownEnvironment(arbitrary())),
            Some(e) => if args[1].len() == 0 {
                Err(ApplyInputError::EmptyPath(arbitrary()))
            } else {
                Ok((e, args[1]))
            },
        }
    } else {
        Err(ApplyInputError::TooManyArguments)
    }
}

/// The positional arguments of `apply` as views.
pub open spec fn arg_views(args: Seq<String>) -> Seq<Seq<char>> {
    args.map_values(|s: String| s@)
}

/// The environment and the seed path of `apply`: `PATH` alone means the `dev` environment,
/// `ENV PATH` names both; a lone environment name, an unknown environment, an empty path,
/// no argument and more than two arguments are refused.
pub fn parse_apply_inputs(args: &ApplyArgs) -> (r: Result<(Environment, String), ApplyInputError>)
    ensures
        match apply_inputs(arg_views(args.env_and_path@)) {
            Ok((e, path)) => r matches Ok((e2, p2)) && e2 == e && p2@ == path,
            Err(ApplyInputError::UnknownEnvironment(_)) => r matches Err(
                ApplyInputError::UnknownEnvironment(given),
            ) && given@ == args.env_and_path@[0]@,
            Err(ApplyInputError::EmptyPath(_)) => r matches Err(ApplyInputError::EmptyPath(given))
                && given@ == args.env_and_path@[0]@,
            Err(e) => r == Err::<(Environment, String), ApplyInputError>(e),
        },
{
    let v = &args.env_and_path;
    if v.len() == 0 {
        return Err(ApplyInputError::MissingPath);
    }
    if v.len() == 1 {
        if Environment::parse_arg(v[0].as_str()).is_some() {
            return Err(ApplyInputError::MissingPathAfterEnvironment);
        }
        return Ok((Environment::Dev, v[0].clone()));
    }
    if v.len() == 2 {
        let env = &v[0];
        let path = &v[1];
        match Environment::parse_arg(env.as_str()) {
            None => {
                return Err(ApplyInputError::UnknownEnvironment(env.clone()));
            },
            Some(e) => {
                if string_chars(path).len() == 0 {
                    return Err(ApplyInputError::EmptyPath(env.clone()));
                }
                return Ok((e, path.clone()));
            },
        }
    }
    Err(ApplyInputError::TooManyArguments)
}

/// Neither `--database-url` nor the environment's variable gives a URL, and the environment
/// has no default.
#[derive(Debug, Clone, Copy, PartialEq, Eq, Structural)]
pub struct MissingDatabaseUrl {
    /// The environment.
    pub env: Environment,
}

impl MissingDatabaseUrl {
    /// The message shown: the environment's variable and `--database-url` are both unset.
    pub fn message(&self) -> (r: String)
        ensures
            r@ == env_var_name(self.env) + " または --database-url が設定されていません。"@,
    {
        let mut v: Vec<char> = Vec::new();
        push_str(&mut v, self.env.database_env_var());
        push_str(&mut v, " または --database-url が設定されていません。");
        string_from_chars(&v)
    }
}

/// The URL that `resolve_database_url` picks: the command line's first, then the
/// environment's variable, then the environment's default (production has none).
pub open spec fn database_url_choice(
    cli: Option<Seq<char>>,
    env: Environment,
    env_value: Option<Seq<char>>,
) -> Option<Seq<char>> {
    match cli {
        Some(url) => Some(url),
        None => match env_value {
            Some(url) => Some(url),
            None => match env {
                Environment::Dev => Some("mysql://root@127.0.0.1:15000"@),
                Environment::Prod => None,
                Environment::TidbPlayground => Some("mysql://root@127.0.0.1:4000"@),
            },
        },
    }
}

/// The database URL to connect to. `env_value` is the value of the environment variable
/// `env.database_env_var()`, if it is set.
pub fn resolve_database_url(
    cli_database_url: Option<String>,
    env: Environment,
    env_value: Option<String>,
) -> (r: Result<String, MissingDatabaseUrl>)
    ensures
        match database_url_choice(
            match cli_database_url {
                Some(u) => Some(u@),
                None => None,
            },
            env,
            match env_value {
                Some(u) => Some(u@),
                None => None,
            },
        ) {
            Some(url) => r matches Ok(u) && u@ == url,
            None => r == Err::<String, MissingDatabaseUrl>(MissingDatabaseUrl { env }),
        },
{
    if let Some(url) = cli_database_url {
        return Ok(url);
    }
    if let Some(url) = env_value {
        return Ok(url);
    }
    match env {
        Environment::Dev => Ok(owned("mysql://root@127.0.0.1:15000")),
        Environment::Prod => Err(MissingDatabaseUrl { env }),
        Environment::TidbPlayground => Ok(owned("mysql://root@127.0.0.1:4000")),
    }
}

/// The command line's URL is always the one chosen; without it, a set environment variable is
/// the URL for every environment; only without both is the environment's default used, and
/// production has none.
pub proof fn law_database_url_precedence(
    cli: Option<Seq<char>>,
    env: Environment,
    env_value: Option<Seq<char>>,
)
    ensures
        cli matches Some(u) ==> database_url_choice(cli, env, env_value) == Some(u),
        (cli is None && env_value is Some) ==> database_url_choice(cli, env, env_value) == env_value,
        (cli is None && env_value is None) ==> database_url_choice(cli, env, env_value) == (match env {
            Environment::Dev => Some("mysql://root@127.0.0.1:15000"@),
            Environment::Prod => None,
            Environment::TidbPlayground => Some("mysql://root@127.0.0.1:4000"@),
        }),
{
}

/// With two arguments, a first that names an environment and a non-empty second, `apply` runs
/// in exactly that environment on the second argument; a single argument that names no
/// environment is the path, in the `dev` environment.
pub proof fn law_apply_inputs_keep_environment_and_path(args: Seq<Seq<char>>)
    ensures
        (args.len() == 2 && environment_named(args[0]) is Some && args[1].len() > 0) ==> apply_inputs(
            args,
        ) == Ok::<(Environment, Seq<char>), ApplyInputError>((environment_named(args[0])->Some_0, args[1])),
        (args.len() == 1 && environment_named(args[0]) is None) ==> apply_inputs(args) == Ok::<
            (Environment, Seq<char>),
            ApplyInputError,
        >((Environment::Dev, args[0])),
{
}

} // verus!
