use workbench::employee_manager::{find_word, interpret, parse_command, Command};

#[test]
fn test_parse_command() {
    assert_eq!(
        parse_command("Add Sally to Engineering"),
        Some(Command::AddEmployee {
            name: "Sally".to_string(),
            department: "Engineering".to_string()
        })
    );

    assert_eq!(
        parse_command("List Engineering"),
        Some(Command::ListDepartment {
            department: "Engineering".to_string()
        })
    );

    assert_eq!(parse_command("List all"), Some(Command::ListAll));

    assert_eq!(
        parse_command("Remove Sally from Engineering"),
        Some(Command::RemoveEmployee {
            name: "Sally".to_string(),
            department: "Engineering".to_string()
        })
    );
}

#[test]
fn test_parse_multi_word_names_and_departments() {
    assert_eq!(
        parse_command("Add John Smith to Human Resources"),
        Some(Command::AddEmployee {
            name: "John Smith".to_string(),
            department: "Human Resources".to_string()
        })
    );
}

fn add(name: &str, department: &str) -> Option<Command> {
    Some(Command::AddEmployee { name: name.to_string(), department: department.to_string() })
}

fn remove(name: &str, department: &str) -> Option<Command> {
    Some(Command::RemoveEmployee { name: name.to_string(), department: department.to_string() })
}

fn list(department: &str) -> Option<Command> {
    Some(Command::ListDepartment { department: department.to_string() })
}

#[test]
fn keywords_are_read_in_any_case() {
    assert_eq!(parse_command("ADD Sally TO Sales"), add("Sally", "Sales"));
    assert_eq!(parse_command("reMOVE Sally From Sales"), remove("Sally", "Sales"));
    assert_eq!(parse_command("SHOW ALL"), Some(Command::ListAll));
    assert_eq!(parse_command("show Sales"), list("Sales"));
    assert_eq!(parse_command("HeLp"), Some(Command::Help));
    assert_eq!(parse_command("QUIT"), Some(Command::Quit));
    assert_eq!(parse_command("Exit"), Some(Command::Quit));
}

#[test]
fn white_space_is_collapsed() {
    assert_eq!(parse_command("  add   Ann  Lee\tto  Research \n"), add("Ann Lee", "Research"));
    assert_eq!(parse_command("list\u{a0}all"), Some(Command::ListAll));
    assert_eq!(parse_command("list   Human   Resources"), list("Human Resources"));
}

#[test]
fn lines_that_are_no_command_give_none() {
    assert_eq!(parse_command(""), None);
    assert_eq!(parse_command("   \t\n"), None);
    assert_eq!(parse_command("hello"), None);
    assert_eq!(parse_command("add"), None);
    assert_eq!(parse_command("add Sally"), None);
    assert_eq!(parse_command("add Sally to"), None);
    assert_eq!(parse_command("add to Sales"), None);
    assert_eq!(parse_command("add Sally Sales"), None);
    assert_eq!(parse_command("remove Sally to Sales"), None);
    assert_eq!(parse_command("remove from Sales"), None);
    assert_eq!(parse_command("remove Sally from"), None);
    assert_eq!(parse_command("list"), None);
    assert_eq!(parse_command("show"), None);
    assert_eq!(parse_command("adds Sally to Sales"), None);
}

#[test]
fn the_first_link_word_splits_the_line() {
    assert_eq!(parse_command("add Sally to Sales to Go"), add("Sally", "Sales to Go"));
    assert_eq!(parse_command("add to to Sales"), None);
    assert_eq!(parse_command("add Tom TO To"), add("Tom", "To"));
    assert_eq!(parse_command("remove Al from From from Here"), remove("Al", "From from Here"));
    assert_eq!(parse_command("add Sally from Sales to Ops"), add("Sally from Sales", "Ops"));
}

#[test]
fn words_after_help_and_quit_are_ignored() {
    assert_eq!(parse_command("help me please"), Some(Command::Help));
    assert_eq!(parse_command("quit now"), Some(Command::Quit));
    assert_eq!(parse_command("list all departments"), Some(Command::ListAll));
    assert_eq!(parse_command("list ALL"), Some(Command::ListAll));
    assert_eq!(parse_command("list allx"), list("allx"));
}

fn strings(values: &[&str]) -> Vec<String> {
    values.iter().map(|value| value.to_string()).collect()
}

#[test]
fn interpret_goes_by_the_lowered_words_it_is_given() {
    let words = strings(&["Xyz", "Sally", "Abc", "Sales"]);
    assert_eq!(interpret(&words, &strings(&["add", "sally", "to", "sales"])), add("Sally", "Sales"));
    assert_eq!(
        interpret(&words, &strings(&["remove", "sally", "from", "sales"])),
        remove("Sally", "Sales")
    );
    assert_eq!(interpret(&words, &strings(&["list", "all", "to", "sales"])), Some(Command::ListAll));
    assert_eq!(interpret(&words, &strings(&["show", "x", "y", "z"])), list("Sally Abc Sales"));
    assert_eq!(interpret(&words, &strings(&["Add", "sally", "to", "sales"])), None);
    assert_eq!(interpret(&words, &strings(&["add", "sally", "to"])), None);
    assert_eq!(interpret(&Vec::new(), &Vec::new()), None);
}

#[test]
fn find_word_gives_the_first_index_or_the_length() {
    let words = strings(&["a", "to", "b", "to"]);
    assert_eq!(find_word(&words, "to"), 1);
    assert_eq!(find_word(&words, "a"), 0);
    assert_eq!(find_word(&words, "b"), 2);
    assert_eq!(find_word(&words, "c"), 4);
    assert_eq!(find_word(&Vec::new(), "c"), 0);
}

use workbench::employee_manager::EmployeeManager;

#[test]
fn test_add_employee() {
    let mut manager = EmployeeManager::new();
    manager.add_employee("Alice".to_string(), "Engineering".to_string());

    let employees = manager.get_department_employees("Engineering").unwrap();
    assert_eq!(employees, vec!["Alice"]);
}

#[test]
fn test_add_multiple_employees() {
    let mut manager = EmployeeManager::new();
    manager.add_employee("Alice".to_string(), "Engineering".to_string());
    manager.add_employee("Bob".to_string(), "Engineering".to_string());
    manager.add_employee("Carol".to_string(), "Sales".to_string());

    let engineering = manager.get_department_employees("Engineering").unwrap();
    let sales = manager.get_department_employees("Sales").unwrap();

    assert_eq!(engineering, vec!["Alice", "Bob"]);
    assert_eq!(sales, vec!["Carol"]);
}

#[test]
fn test_alphabetical_sorting() {
    let mut manager = EmployeeManager::new();
    manager.add_employee("Zoe".to_string(), "Engineering".to_string());
    manager.add_employee("Alice".to_string(), "Engineering".to_string());
    manager.add_employee("Bob".to_string(), "Engineering".to_string());

    let employees = manager.get_department_employees("Engineering").unwrap();
    assert_eq!(employees, vec!["Alice", "Bob", "Zoe"]);
}

#[test]
fn test_get_all_employees() {
    let mut manager = EmployeeManager::new();
    manager.add_employee("Alice".to_string(), "Engineering".to_string());
    manager.add_employee("Bob".to_string(), "Sales".to_string());

    let all = manager.get_all_employees();
    assert_eq!(all.len(), 2);
    assert!(all.iter().any(|department| department.name == "Engineering"));
    assert!(all.iter().any(|department| department.name == "Sales"));
}

#[test]
fn test_remove_employee() {
    let mut manager = EmployeeManager::new();
    manager.add_employee("Alice".to_string(), "Engineering".to_string());
    manager.add_employee("Bob".to_string(), "Engineering".to_string());

    assert!(manager.remove_employee("Alice", "Engineering"));
    let employees = manager.get_department_employees("Engineering").unwrap();
    assert_eq!(employees, vec!["Bob"]);

    assert!(!manager.remove_employee("Charlie", "Engineering"));
}

#[test]
fn nobody_is_added_twice_to_a_department() {
    let mut manager = EmployeeManager::new();
    assert!(manager.add_employee("Alice".to_string(), "Engineering".to_string()));
    assert!(!manager.add_employee("Alice".to_string(), "Engineering".to_string()));
    assert!(manager.add_employee("Alice".to_string(), "Sales".to_string()));
    assert!(manager.add_employee("alice".to_string(), "Engineering".to_string()));
    assert_eq!(manager.get_department_employees("Engineering").unwrap(), vec!["Alice", "alice"]);
    assert_eq!(manager.get_department_employees("Sales").unwrap(), vec!["Alice"]);
}

#[test]
fn a_department_goes_with_its_last_person() {
    let mut manager = EmployeeManager::new();
    manager.add_employee("Alice".to_string(), "Engineering".to_string());
    manager.add_employee("Bob".to_string(), "Sales".to_string());
    assert!(manager.remove_employee("Alice", "Engineering"));
    assert_eq!(manager.get_department_employees("Engineering"), None);
    assert_eq!(manager.get_departments(), vec!["Sales"]);
    assert!(!manager.remove_employee("Alice", "Engineering"));
    assert!(!manager.remove_employee("Bob", "Engineering"));
    assert!(!manager.remove_employee("Bob", "sales"));
    assert!(manager.remove_employee("Bob", "Sales"));
    assert!(manager.get_departments().is_empty());
    assert!(manager.get_all_employees().is_empty());
}

#[test]
fn departments_and_people_come_out_in_string_order() {
    let mut manager = EmployeeManager::new();
    assert!(manager.get_departments().is_empty());
    assert_eq!(manager.get_department_employees("Sales"), None);
    for (name, department) in [
        ("Zoe", "Sales"),
        ("adam", "Sales"),
        ("Bob", "Marketing"),
        ("Émile", "Sales"),
        ("Al", "Engineering"),
        ("Alice", "Engineering"),
        ("", "Engineering"),
    ] {
        assert!(manager.add_employee(name.to_string(), department.to_string()));
    }
    assert_eq!(manager.get_departments(), vec!["Engineering", "Marketing", "Sales"]);
    assert_eq!(manager.get_department_employees("Sales").unwrap(), vec!["Zoe", "adam", "Émile"]);
    assert_eq!(manager.get_department_employees("Engineering").unwrap(), vec!["", "Al", "Alice"]);
    let all = manager.get_all_employees();
    let names: Vec<&str> = all.iter().map(|department| department.name.as_str()).collect();
    assert_eq!(names, vec!["Engineering", "Marketing", "Sales"]);
    assert_eq!(all[0].employees, vec!["", "Al", "Alice"]);
    assert_eq!(all[1].employees, vec!["Bob"]);
    assert_eq!(all[2].employees, vec!["Zoe", "adam", "Émile"]);
}
