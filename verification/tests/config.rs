use arkaive::config::{find_malformed, parse_archives, Archive, Config};

fn job(name: &str, input: &str, output: &str) -> Archive {
    Archive::new(name.to_string(), input.to_string(), output.to_string())
}

#[test]
fn descriptor_returns_its_fields() {
    let archive = job("backup", "~/data", "$HOME/out");
    assert_eq!(archive.get_name(), "backup");
    assert_eq!(archive.get_input(), "~/data");
    assert_eq!(archive.get_output(), "$HOME/out");
}

#[test]
fn duplicate_has_the_same_fields() {
    let archive = job("backup", "~/data", "/out");
    let copy = archive.duplicate();
    assert_eq!(copy.get_name(), "backup");
    assert_eq!(copy.get_input(), "~/data");
    assert_eq!(copy.get_output(), "/out");
}

#[test]
fn well_formed_descriptor() {
    assert!(job("backup", "~/data", "/out").is_well_formed());
    assert!(job("backup.v2", "x", "y").is_well_formed());
}

#[test]
fn descriptor_with_an_empty_field_is_malformed() {
    assert!(!job("", "~/data", "/out").is_well_formed());
    assert!(!job("backup", "", "/out").is_well_formed());
    assert!(!job("backup", "~/data", "").is_well_formed());
}

#[test]
fn descriptor_whose_name_is_no_file_name_is_malformed() {
    assert!(!job("a/b", "~/data", "/out").is_well_formed());
    assert!(!job("..", "~/data", "/out").is_well_formed());
    assert!(!job(".", "~/data", "/out").is_well_formed());
}

#[test]
fn absent_archives_are_none() {
    let config = Config::new(None);
    assert!(parse_archives(&config).is_none());
    assert!(config.into_archives().is_none());
}

#[test]
fn empty_archives_are_an_empty_list() {
    let config = Config::new(Some(Vec::new()));
    assert_eq!(parse_archives(&config).unwrap().len(), 0);
}

#[test]
fn archives_come_in_the_order_of_the_configuration() {
    let config =
        Config::new(Some(vec![job("b", "1", "2"), job("a", "3", "4"), job("c", "5", "6")]));
    let names: Vec<&str> = parse_archives(&config).unwrap().iter().map(|a| a.get_name()).collect();
    assert_eq!(names, vec!["b", "a", "c"]);
    let jobs = config.into_archives().unwrap();
    assert_eq!(jobs[1].get_input(), "3");
}

#[test]
fn first_malformed_descriptor_is_found() {
    let jobs = vec![job("a", "1", "2"), job("", "3", "4"), job("c", "", "6")];
    assert_eq!(find_malformed(&jobs), Some(1));
    let jobs = vec![job("a", "1", "2"), job("b", "3", "4")];
    assert_eq!(find_malformed(&jobs), None);
    assert_eq!(find_malformed(&Vec::new()), None);
}
