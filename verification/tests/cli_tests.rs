use yaml_seeder::cli::{parse_apply_inputs, resolve_database_url, ApplyArgs, ApplyInputError, Environment, MissingDatabaseUrl};

fn args(words: &[&str]) -> ApplyArgs {
    ApplyArgs {
        env_and_path: words.iter().map(|w| w.to_string()).collect(),
        dry_run: false,
        validate_only: false,
        ignore_missing_tables: false,
    }
}

#[test]
fn environment_variables_per_environment() {
    assert_eq!(Environment::Dev.database_env_var(), "DEV_DATABASE_URL");
    assert_eq!(Environment::Prod.database_env_var(), "PROD_DATABASE_URL");
    assert_eq!(
        Environment::TidbPlayground.database_env_var(),
        "TIDB_PLAYGROUND_DATABASE_URL"
    );
}

#[test]
fn environment_names_ignore_case() {
    assert_eq!(Environment::parse_arg("dev"), Some(Environment::Dev));
    assert_eq!(Environment::parse_arg("Development"), Some(Environment::Dev));
    assert_eq!(Environment::parse_arg("PROD"), Some(Environment::Prod));
    assert_eq!(Environment::parse_arg("production"), Some(Environment::Prod));
    assert_eq!(Environment::parse_arg("tidb"), Some(Environment::TidbPlayground));
    assert_eq!(
        Environment::parse_arg("TiDB-Playground"),
        Some(Environment::TidbPlayground)
    );
    assert_eq!(
        Environment::parse_arg("tidb_playground"),
        Some(Environment::TidbPlayground)
    );
    assert_eq!(Environment::parse_arg("staging"), None);
    assert_eq!(Environment::parse_arg(" dev"), None);
}

#[test]
fn apply_inputs_path_alone_means_dev() {
    assert_eq!(
        parse_apply_inputs(&args(&["scripts/seeds"])),
        Ok((Environment::Dev, "scripts/seeds".to_string()))
    );
    assert_eq!(
        parse_apply_inputs(&args(&["prod", "seed.yaml"])),
        Ok((Environment::Prod, "seed.yaml".to_string()))
    );
}

#[test]
fn apply_inputs_refusals() {
    let err = parse_apply_inputs(&args(&[])).unwrap_err();
    assert_eq!(err, ApplyInputError::MissingPath);
    assert_eq!(
        err.message(),
        "シードファイルまたはディレクトリのパスを指定してください。例: yaml-seeder apply scripts/seeds/n1-seed"
    );
    let err = parse_apply_inputs(&args(&["dev"])).unwrap_err();
    assert_eq!(err, ApplyInputError::MissingPathAfterEnvironment);
    assert_eq!(
        err.message(),
        "シードファイルまたはディレクトリのパスを指定してください。例: yaml-seeder apply dev scripts/seeds/n1-seed"
    );
    let err = parse_apply_inputs(&args(&["qa", "x"])).unwrap_err();
    assert_eq!(err, ApplyInputError::UnknownEnvironment("qa".to_string()));
    assert_eq!(
        err.message(),
        "環境の指定が不正です: qa. 利用可能な値: dev, prod, tidb-playground"
    );
    let err = parse_apply_inputs(&args(&["Prod", ""])).unwrap_err();
    assert_eq!(err, ApplyInputError::EmptyPath("Prod".to_string()));
    assert_eq!(
        err.message(),
        "シードファイルまたはディレクトリのパスを指定してください。例: yaml-seeder apply Prod scripts/seeds/n1-seed"
    );
    let err = parse_apply_inputs(&args(&["a", "b", "c"])).unwrap_err();
    assert_eq!(err, ApplyInputError::TooManyArguments);
    assert_eq!(
        err.message(),
        "引数の形式が不正です。`yaml-seeder apply [dev|prod|tidb-playground] <PATH>` の形式で指定してください。"
    );
}

#[test]
fn database_url_precedence() {
    let cli = Some("mysql://cli".to_string());
    let var = Some("mysql://var".to_string());
    assert_eq!(
        resolve_database_url(cli.clone(), Environment::Prod, var.clone()),
        Ok("mysql://cli".to_string())
    );
    assert_eq!(
        resolve_database_url(None, Environment::Prod, var),
        Ok("mysql://var".to_string())
    );
    assert_eq!(
        resolve_database_url(None, Environment::Dev, None),
        Ok("mysql://root@127.0.0.1:15000".to_string())
    );
    assert_eq!(
        resolve_database_url(None, Environment::TidbPlayground, None),
        Ok("mysql://root@127.0.0.1:4000".to_string())
    );
    let err = resolve_database_url(None, Environment::Prod, None).unwrap_err();
    assert_eq!(err, MissingDatabaseUrl { env: Environment::Prod });
    assert_eq!(
        err.message(),
        "PROD_DATABASE_URL または --database-url が設定されていません。"
    );
}
