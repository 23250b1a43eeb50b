use hornet::loader::{load_redis_script, load_script_content, ScriptLoader, ScriptLoaderError, ScriptName, ScriptTable};

const DIR: &str = "./tests/fixtures/scripts/";

fn fixtures() -> ScriptTable {
    let mut t = ScriptTable::new();
    let files: Vec<(&str, &str)> = vec![
        (
            "fixture_simple_include.lua",
            "--- @include \"includes/utils\"\n--- file: fixture_simple_include.lua\nreturn utils()\n",
        ),
        ("includes/utils.lua", "--- file: includes/utils.lua\nlocal function utils() return 1 end\n"),
        ("strings.lua", "--- file: strings.lua\nlocal function trim(s) return s end\n"),
        (
            "fixture_duplicate_elimination.lua",
            "--- @include \"strings\"\n--- @include \"fixture_shared_strings\"\n--- file: fixture_duplicate_elimination.lua\n",
        ),
        (
            "fixture_shared_strings.lua",
            "--- @include \"strings\"\n--- file: fixture_shared_strings.lua\n",
        ),
        (
            "fixture_recursive_parent.lua",
            "--- @include \"fixture_recursive_child\"\n--- file: fixture_recursive_parent.lua\n",
        ),
        (
            "fixture_recursive_child.lua",
            "--- @include \"fixture_recursive_grandchild\"\n--- file: fixture_recursive_child.lua\n",
        ),
        (
            "fixture_recursive_grandchild.lua",
            "--- @include \"fixture_recursive_great_grandchild\"\n--- file: fixture_recursive_grandchild.lua\n",
        ),
        (
            "fixture_recursive_great_grandchild.lua",
            "--- @include \"strings\"\n--- file: fixture_recursive_great_grandchild.lua\n",
        ),
        (
            "fixture_circular_dependency.lua",
            "--- @include \"fixture_circular_dependency_child\"\n--- file: fixture_circular_dependency.lua\n",
        ),
        (
            "fixture_circular_dependency_child.lua",
            "--- @include \"fixture_circular_dependency\"\n--- file: fixture_circular_dependency_child.lua\n",
        ),
        (
            "fixture_duplicate_include.lua",
            "--- @include \"includes/utils\"\n--- @include \"includes/utils\"\n--- file: fixture_duplicate_include.lua\n",
        ),
    ];
    for (name, content) in files {
        t.add(&format!("{}{}", DIR, name), content);
    }
    t
}

fn parse_included_files(script: String) -> Vec<String> {
    let left = "--- file:";
    let mut res = vec![];

    for line in script.lines() {
        if line.starts_with(left) {
            res.push(line.replace(left, "").trim().to_string());
        }
    }

    res
}

#[test]
fn handles_basic_include() {
    let table = fixtures();
    let fixture = "./tests/fixtures/scripts/fixture_simple_include.lua";
    let command = load_script_content(&table, fixture);

    assert!(command.is_ok());
}

#[test]
fn removes_include_tag() {
    let table = fixtures();
    let fixture = "./tests/fixtures/scripts/fixture_simple_include.lua";
    let script = load_script_content(&table, fixture).unwrap();

    assert!(!script.contains("@include"));
}

#[test]
fn interpolates_script_exactly_once() {
    let table = fixtures();
    let fixture = "./tests/fixtures/scripts/fixture_duplicate_elimination.lua";
    let script = load_script_content(&table, fixture).unwrap();
    let includes = parse_included_files(script);
    let count = includes.iter().filter(|i| **i == "strings.lua").count();

    assert_eq!(count, 1);
}

#[test]
fn inserts_scripts_in_dependency_order() {
    let table = fixtures();
    let fixture = "./tests/fixtures/scripts/fixture_recursive_parent.lua";
    let script = load_script_content(&table, fixture).unwrap();
    let includes = parse_included_files(script);

    let expected = vec![
        "strings.lua",
        "fixture_recursive_great_grandchild.lua",
        "fixture_recursive_grandchild.lua",
        "fixture_recursive_child.lua",
        "fixture_recursive_parent.lua",
    ];

    assert_eq!(includes, expected);
}

#[test]
fn detect_circular_dependencies() {
    let table = fixtures();
    let fixture = "./tests/fixtures/scripts/fixture_circular_dependency.lua";
    let script = load_script_content(&table, fixture);

    assert!(script.is_err());
    assert_eq!(script.err().unwrap(), ScriptLoaderError::CircularDependency);
}

#[test]
fn prevent_multiple_includes_of_file_in_single_script() {
    let table = fixtures();
    let fixture = "./tests/fixtures/scripts/fixture_duplicate_include.lua";
    let script = load_script_content(&table, fixture);

    assert!(script.is_err());
    assert_eq!(
        script.err().unwrap(),
        ScriptLoaderError::DuplicateIncludes("includes/utils".to_string())
    );
}

#[test]
fn loader_handles_basic_include() {
    let table = fixtures();
    let loader = ScriptLoader::new();
    let fixture = "./tests/fixtures/scripts/fixture_simple_include.lua";
    let command = loader.load_command(&table, fixture);

    assert!(command.is_ok());
}

#[test]
fn loader_removes_include_tag() {
    let table = fixtures();
    let loader = ScriptLoader::new();
    let fixture = "./tests/fixtures/scripts/fixture_simple_include.lua";
    let script = loader.load_command(&table, fixture).unwrap().lua;

    assert!(!script.contains("@include"));
}

#[test]
fn loader_interpolates_script_exactly_once() {
    let table = fixtures();
    let loader = ScriptLoader::new();
    let fixture = "./tests/fixtures/scripts/fixture_duplicate_elimination.lua";
    let script = loader.load_command(&table, fixture).unwrap().lua;
    let includes = parse_included_files(script);
    let count = includes.iter().filter(|i| **i == "strings.lua").count();

    assert_eq!(count, 1);
}

#[test]
fn loader_inserts_scripts_in_dependency_order() {
    let table = fixtures();
    let loader = ScriptLoader::new();
    let fixture = "./tests/fixtures/scripts/fixture_recursive_parent.lua";
    let script = loader.load_command(&table, fixture).unwrap().lua;
    let includes = parse_included_files(script);

    let expected = vec![
        "strings.lua",
        "fixture_recursive_great_grandchild.lua",
        "fixture_recursive_grandchild.lua",
        "fixture_recursive_child.lua",
        "fixture_recursive_parent.lua",
    ];

    assert_eq!(includes, expected);
}

#[test]
fn loader_detect_circular_dependencies() {
    let table = fixtures();
    let loader = ScriptLoader::new();
    let fixture = "./tests/fixtures/scripts/fixture_circular_dependency.lua";
    let script = loader.load_command(&table, fixture);

    assert!(script.is_err());
    assert_eq!(script.err().unwrap(), ScriptLoaderError::CircularDependency);
}

#[test]
fn script_without_directives_is_unchanged() {
    let mut t = ScriptTable::new();
    let body = "local x = 1\n-- @include is mentioned in a comment\n---- @include \"a\"\nreturn x";
    t.add("s/plain.lua", body);
    assert_eq!(load_script_content(&t, "s/plain.lua").unwrap(), body);
}

#[test]
fn empty_script_is_unchanged() {
    let mut t = ScriptTable::new();
    t.add("empty.lua", "");
    assert_eq!(load_script_content(&t, "empty.lua").unwrap(), "");
}

#[test]
fn directive_forms_are_recognised() {
    let mut t = ScriptTable::new();
    t.add(
        "d/root.lua",
        "-- @include 'a';\n---\t@include \"b.lua\" trailing\nbody\n",
    );
    t.add("d/a.lua", "A\n");
    t.add("d/b.lua", "B\n");
    assert_eq!(load_script_content(&t, "d/root.lua").unwrap(), "A\n\nB\ntrailing\nbody\n");
}

#[test]
fn splices_child_where_the_directive_stood() {
    let mut t = ScriptTable::new();
    t.add("r.lua", "head\n--- @include \"c\"\ntail\n");
    t.add("c.lua", "child\n");
    assert_eq!(load_script_content(&t, "r.lua").unwrap(), "head\nchild\n\ntail\n");
}

#[test]
fn second_reference_to_a_fragment_is_dropped() {
    let mut t = ScriptTable::new();
    t.add("r.lua", "--- @include \"a\"\n--- @include \"b\"\nend\n");
    t.add("a.lua", "--- @include \"leaf\"\nA\n");
    t.add("b.lua", "--- @include \"leaf\"\nB\n");
    t.add("leaf.lua", "L\n");
    assert_eq!(load_script_content(&t, "r.lua").unwrap(), "L\n\nA\n\n\nB\n\nend\n");
}

#[test]
fn self_include_is_circular() {
    let mut t = ScriptTable::new();
    t.add("x/self.lua", "--- @include \"self\"\n");
    assert_eq!(load_script_content(&t, "x/self.lua"), Err(ScriptLoaderError::CircularDependency));
}

#[test]
fn longer_cycle_is_circular() {
    let mut t = ScriptTable::new();
    t.add("a.lua", "--- @include \"b\"\n");
    t.add("b.lua", "--- @include \"c\"\n");
    t.add("c.lua", "--- @include \"a\"\n");
    assert_eq!(load_script_content(&t, "a.lua"), Err(ScriptLoaderError::CircularDependency));
}

#[test]
fn same_fragment_under_two_names_is_no_duplicate() {
    let mut t = ScriptTable::new();
    t.add("r.lua", "--- @include \"u\"\n--- @include \"u.lua\"\n");
    t.add("u.lua", "U\n");
    assert_eq!(load_script_content(&t, "r.lua").unwrap(), "U\n\n\n");
}

#[test]
fn missing_fragment_is_an_io_error() {
    let mut t = ScriptTable::new();
    t.add("dir/r.lua", "--- @include \"gone\"\n");
    assert_eq!(
        load_script_content(&t, "dir/r.lua"),
        Err(ScriptLoaderError::IoError("dir/gone.lua".to_string()))
    );
    assert_eq!(
        load_script_content(&t, "dir/absent.lua"),
        Err(ScriptLoaderError::IoError("dir/absent.lua".to_string()))
    );
}

#[test]
fn first_entry_for_a_path_wins() {
    let mut t = ScriptTable::new();
    t.add("r.lua", "first");
    t.add("r.lua", "second");
    assert_eq!(t.len(), 2);
    assert_eq!(load_script_content(&t, "r.lua").unwrap(), "first");
}

#[test]
fn command_is_named_after_its_file() {
    let table = fixtures();
    let c = ScriptLoader::new()
        .load_command(&table, "./tests/fixtures/scripts/fixture_simple_include.lua")
        .unwrap();
    assert_eq!(c.name(), "fixture_simple_include.lua");
}

#[test]
fn command_name_must_end_with_lua() {
    let mut t = ScriptTable::new();
    t.add("dir/script.txt", "x");
    let r = ScriptLoader::new().load_command(&t, "dir/script.txt");
    assert_eq!(
        r.err().unwrap(),
        ScriptLoaderError::IoError("Script name must end with .lua, got script.txt".to_string())
    );
}

#[test]
fn script_name_checks_suffix() {
    assert!(ScriptName::new("a.lua").is_ok());
    assert_eq!(ScriptName::new("a.lua").unwrap().as_str(), "a.lua");
    assert!(ScriptName::new("a.luax").is_err());
}

#[test]
fn redis_script_holds_the_flattened_text() {
    let mut t = ScriptTable::new();
    t.add("r.lua", "--- @include \"c\"\nreturn 1\n");
    t.add("c.lua", "local c = 2\n");
    let s = load_redis_script(&t, "r.lua").unwrap();
    assert_eq!(s.get_hash(), redis::Script::new("local c = 2\n\nreturn 1\n").get_hash());
    assert_ne!(s.get_hash(), redis::Script::new("--- @include \"c\"\nreturn 1\n").get_hash());
}
