use distpac::client::{Config, Database, ListOpts, MissingAction, Opts, Packages, SearchQuery, SubCommand};
use distpac::server::{AddPackage, ComponentListing};
use std::path::PathBuf;

#[test]
fn the_package_listing_is_fetched_from_the_server() {
    let config = Config { server_url: "http://packages.example.org:8000".to_owned() };
    assert_eq!(config.package_db_url(), "http://packages.example.org:8000/packages.db");
    let config = Config { server_url: String::new() };
    assert_eq!(config.package_db_url(), "/packages.db");
}

#[test]
fn a_listing_reads_the_database_it_asks_for() {
    assert_eq!(ListOpts { installed: true }.database(), Database::Installed);
    assert_eq!(ListOpts { installed: false }.database(), Database::Available);
    assert_eq!(Database::Installed.when_missing(), MissingAction::Create);
    assert_eq!(Database::Available.when_missing(), MissingAction::RaiseError);
}

#[test]
fn commands_hold_what_they_were_given() {
    let opts = Opts {
        subcmd: SubCommand::Install(Packages { packages: vec![PathBuf::from("htop")] }),
    };
    match opts.subcmd {
        SubCommand::Install(Packages { packages }) => assert_eq!(packages, [PathBuf::from("htop")]),
        _ => panic!("not an install"),
    }
    let search = SearchQuery { query_terms: vec!["top".to_owned()] };
    assert_eq!(search.query_terms, ["top"]);
    let listing = ComponentListing { no_seeder: true, no_database: false, no_tracker: false };
    assert_eq!(listing, ComponentListing { no_seeder: true, no_database: false, no_tracker: false });
    let add = AddPackage { package_paths: vec![PathBuf::from("pkg")] };
    assert_eq!(add.package_paths.len(), 1);
}
