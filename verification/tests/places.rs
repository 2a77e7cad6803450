use wardrobe::boundary_execution::{execute, execute_for_tenant, execute_in_scope};
use wardrobe::catalog::registry::{CatalogRegistry, CatalogTenantRoute};
use wardrobe::command::model::{OperationFilter, OperationOptions};
use wardrobe::command::requests::Command;
use wardrobe::connection::{ConnectionTarget, DriverKind};
use wardrobe::error::ErrorKind;
use wardrobe::paths::{
    absolute_lexical_path, components, cut_name, file_name, has_base, is_absolute, join_path,
    path_of, PathPart,
};
use wardrobe::pointer::{
    clean_primary_key_token, format_pointer, is_drawer_only, parse_pointer, try_parse_pointer,
};
use wardrobe::routing::{
    coordinate_catalog_database, coordinate_database_path, schema_scope_path, scoped_drawer_name,
    validate_scope,
};
use wardrobe::storage::types::{StorageCoordinate, StorageScope};
use wardrobe::text::{
    decimal_text, has_part, join, replace_char, rsplit_once, signed_text, split, split_once,
    strip_prefix, to_lower, trim, trim_char, trim_start_char,
};

#[test]
fn pointers_are_read_back() {
    assert_eq!(format_pointer("gem", "ruby"), "@gem:ruby");
    assert_eq!(
        parse_pointer("@gem:ruby"),
        Ok(("gem".to_string(), "ruby".to_string()))
    );
    assert_eq!(
        try_parse_pointer(&format_pointer("w/b/gem", "ruby")),
        Some(("w/b/gem".to_string(), "ruby".to_string()))
    );
}

#[test]
fn pointers_ignore_marks() {
    assert_eq!(clean_primary_key_token("lnk_ruby"), "ruby");
    assert_eq!(format_pointer("@gem", "lnk_ruby"), "@gem:ruby");
    assert!(is_drawer_only("@gem"));
    assert!(!is_drawer_only("@gem:ruby"));
    assert!(!is_drawer_only("gem"));
}

#[test]
fn other_texts_are_no_pointers() {
    assert_eq!(try_parse_pointer("ruby"), None);
    assert_eq!(try_parse_pointer("@gem"), None);
    assert_eq!(parse_pointer("ruby").unwrap_err().kind(), ErrorKind::InvalidInput);
}

#[test]
fn connection_strings_name_places() {
    assert_eq!(
        ConnectionTarget::parse("./data"),
        Ok(ConnectionTarget::EmbeddedPath("./data".to_string()))
    );
    assert_eq!(
        ConnectionTarget::parse("wardrobe://db.example:4000"),
        Ok(ConnectionTarget::Network { host: "db.example".to_string(), port: 4000 })
    );
    assert_eq!(
        ConnectionTarget::parse("wardrobe://db.example"),
        Ok(ConnectionTarget::Network { host: "db.example".to_string(), port: 24842 })
    );
    assert_eq!(
        ConnectionTarget::parse("wardrobe://localhost"),
        Ok(ConnectionTarget::Network { host: "localhost".to_string(), port: 24842 })
    );
    assert_eq!(
        ConnectionTarget::parse("wardrobe+unix:///tmp/wardrobe.sock"),
        Ok(ConnectionTarget::UnixSocket { path: "/tmp/wardrobe.sock".to_string() })
    );
    assert_eq!(
        ConnectionTarget::parse("ftp://db.example").unwrap_err().message,
        "Unsupported Wardrobe connection scheme: ftp://db.example"
    );
    assert_eq!(ConnectionTarget::parse("").unwrap_err().kind(), ErrorKind::InvalidInput);
}

#[test]
fn spellings_of_a_place_agree() {
    let place = Ok(ConnectionTarget::EmbeddedPath("data/gems".to_string()));
    for prefix in ["wardrobe://local/", "file://", "wardrobe+file://"] {
        assert_eq!(ConnectionTarget::parse(&format!(" {prefix}data/gems ")), place);
    }
    assert_eq!(
        ConnectionTarget::parse("wardrobe://unix/run/w.sock"),
        ConnectionTarget::parse("wardrobe+unix://run/w.sock")
    );
    let refused = ConnectionTarget::parse("file://").unwrap_err();
    assert_eq!(refused, ConnectionTarget::parse("wardrobe://local/").unwrap_err());
    assert_eq!(refused.kind(), ErrorKind::InvalidInput);
}

#[test]
fn connection_targets_tell_their_driver() {
    let embedded = ConnectionTarget::EmbeddedPath("data".to_string());
    assert_eq!(embedded.driver_kind(), DriverKind::Embedded);
    assert!(embedded.requires_embedded_engine());
    assert!(!embedded.uses_socket_transport());
    let network = ConnectionTarget::Network { host: "h".to_string(), port: 1 };
    assert_eq!(network.driver_kind(), DriverKind::Network);
    assert!(!network.requires_embedded_engine());
    let socket = ConnectionTarget::UnixSocket { path: "/run/w.sock".to_string() };
    assert_eq!(socket.driver_kind(), DriverKind::UnixSocket);
    assert!(socket.uses_socket_transport());
}

#[test]
fn ports_are_numbers() {
    assert_eq!(
        ConnectionTarget::network_from_authority("host:65535"),
        Ok(ConnectionTarget::Network { host: "host".to_string(), port: 65535 })
    );
    let refused = ConnectionTarget::network_from_authority("host:65536")
        .expect_err("the port is too large");
    assert_eq!(refused.kind(), ErrorKind::InvalidInput);
    assert!(refused.message.contains("number too large"));
    assert!(ConnectionTarget::network_from_authority("host:door").is_err());
    assert!(ConnectionTarget::network_from_authority(":80").is_err());
    assert!(ConnectionTarget::network_from_authority("host/path").is_err());
}

#[test]
fn paths_are_taken_apart() {
    assert_eq!(
        components("/a/./b//../c"),
        vec![
            PathPart::RootDir,
            PathPart::Normal("a".to_string()),
            PathPart::Normal("b".to_string()),
            PathPart::ParentDir,
            PathPart::Normal("c".to_string()),
        ]
    );
    assert_eq!(file_name("/a/b.drw"), Some("b.drw".to_string()));
    assert_eq!(file_name("/a/.."), None);
    assert_eq!(cut_name("b.drw"), ("b".to_string(), Some("drw".to_string())));
    assert_eq!(cut_name(".hidden"), (".hidden".to_string(), None));
    assert!(is_absolute("/a"));
    assert!(!is_absolute("a"));
}

#[test]
fn paths_are_joined() {
    assert_eq!(join_path("/root", "db"), "/root/db");
    assert_eq!(join_path("/root/", "db"), "/root/db");
    assert_eq!(join_path("/root", "/db"), "/db");
    let lexical = absolute_lexical_path("/work", "data/../db");
    assert_eq!(path_of(&lexical), "/work/db");
    assert!(has_base(&lexical, &absolute_lexical_path("/work", "/work")));
    assert!(!has_base(&lexical, &absolute_lexical_path("/work", "/work/data")));
}

#[test]
fn texts_are_cut_and_joined() {
    assert_eq!(trim(" \t a b\n"), "a b");
    assert_eq!(trim(&trim("  x ")), trim("  x "));
    assert_eq!(trim_char("//a/b//", '/'), "a/b");
    assert_eq!(trim_start_char("@@a@", '@'), "a@");
    let parts = split("a,,b", ',');
    assert_eq!(parts, vec!["a".to_string(), "".to_string(), "b".to_string()]);
    assert_eq!(join(&parts, ","), "a,,b");
    assert_eq!(split_once("a:b:c", ':'), Some(("a".to_string(), "b:c".to_string())));
    assert_eq!(rsplit_once("a:b:c", ':'), Some(("a:b".to_string(), "c".to_string())));
    assert_eq!(strip_prefix("lnk_a", "lnk_"), Some("a".to_string()));
    assert_eq!(replace_char("a-b", '-', '_'), "a_b");
    assert!(has_part("abcd", "bc"));
    assert_eq!(to_lower("AbC"), "abc");
}

#[test]
fn numbers_are_written() {
    assert_eq!(decimal_text(0), "0");
    assert_eq!(decimal_text(18446744073709551615), "18446744073709551615");
    assert_eq!(signed_text(-9223372036854775808), "-9223372036854775808");
    assert_eq!(signed_text(42), "42");
}

fn read_gem() -> Command {
    Command::Read {
        filter: OperationFilter::drawer("gem"),
        options: OperationOptions::default(),
    }
}

#[test]
fn scopes_lead_to_folders() {
    assert_eq!(scoped_drawer_name("gem", None), "gem");
    assert_eq!(scoped_drawer_name("gem", Some("public")), "public_gem");
    let place = StorageCoordinate::new("acme", "db", "public");
    assert_eq!(coordinate_catalog_database(&place), "acme/db");
    assert_eq!(coordinate_database_path("/root", &place), Ok("/root/acme/db/public".to_string()));
    assert_eq!(schema_scope_path("/root", "db", "public"), Ok("/root/db/public".to_string()));
    assert!(schema_scope_path("/root", "../db", "public").is_err());
    assert!(validate_scope(&StorageScope::schema("db", "..")).is_err());
    assert_eq!(validate_scope(&StorageScope::schema("db", "public")), Ok(()));
    assert!(validate_scope(&StorageScope::database("")).is_err());
}

#[test]
fn tenants_reach_their_own_databases() {
    let mut registry = CatalogRegistry::new();
    registry.register_drawer("db", "public", "gem", "db/public");
    let reach = |registry: &CatalogRegistry, tenant: &str, database: &str| {
        execute_for_tenant("/root", registry, tenant, database, "public", &read_gem())
    };
    assert_eq!(
        reach(&registry, "acme", "db").unwrap_err().message,
        "Tenant 'acme' is not registered in the catalog"
    );
    registry.routes.push(CatalogTenantRoute {
        tenant_id: "acme".to_string(),
        database: "db".to_string(),
        location: "tenants/acme".to_string(),
    });
    assert_eq!(reach(&registry, "acme", "db"), Ok("/root/tenants/acme/public".to_string()));
    assert_eq!(
        reach(&registry, "acme", "other").unwrap_err().message,
        "Tenant 'acme' is not routed to database 'other'"
    );
    assert_eq!(reach(&registry, "../x", "db").unwrap_err().kind(), ErrorKind::InvalidInput);
    let place = StorageCoordinate::new("acme", "db", "public");
    assert_eq!(
        execute("/root", &CatalogRegistry::new(), &place, &read_gem()),
        Ok("/root/acme/db/public".to_string())
    );
}

#[test]
fn scoped_commands_are_held_against_the_catalog() {
    let mut registry = CatalogRegistry::new();
    registry.register_drawer("db", "public", "tool", "db/public");
    let scope = StorageScope::schema("db", "public");
    let refused = execute_in_scope("/root", &registry, &scope, &read_gem())
        .expect_err("the drawer is not registered");
    assert_eq!(refused.kind(), ErrorKind::NotFound);
    registry.register_drawer("db", "public", "gem", "db/public");
    assert!(registry.contains_drawer("db", "public", "gem"));
    assert!(execute_in_scope("/root", &registry, &scope, &read_gem()).is_ok());
}
