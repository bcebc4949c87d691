use blockchain_core::smart_contracts::{EventManager, SmartContract, VirtualMachine};
use std::cell::RefCell;
use std::rc::Rc;

#[test]
fn test_smart_contract_execution() {
    let mut contract = SmartContract::new("add".to_string());
    let result = contract.execute("add", &[1, 2, 3]);
    assert_eq!(result.unwrap(), 6);
}

#[test]
fn test_role_based_access_control() {
    let mut contract = SmartContract::new("add".to_string());
    contract.add_role("admin".to_string());

    // Test with authorized role
    let result = contract.execute_with_role("admin", "add", &[1, 2, 3]);
    assert_eq!(result.unwrap(), 6);

    // Test with unauthorized role
    let result = contract.execute_with_role("user", "add", &[1, 2, 3]);
    assert!(result.is_err());
}

#[test]
fn test_contract_upgradability() {
    let mut contract = SmartContract::new("add".to_string());
    contract.state.insert("key".to_string(), 42);

    // Upgrade contract
    contract.upgrade("multiply".to_string());

    // Ensure state is preserved
    assert_eq!(contract.state.get("key"), Some(&42));

    // Test new functionality
    let result = contract.execute("multiply", &[2, 3]);
    assert_eq!(result.unwrap(), 6);
}

#[test]
fn test_error_handling() {
    let mut contract = SmartContract::new("add".to_string());

    // Test with valid function
    let result = contract.execute_with_error_handling("add", &[1, 2, 3]);
    assert_eq!(result.unwrap(), 6);

    // Test with invalid function
    let result = contract.execute_with_error_handling("invalid", &[1, 2, 3]);
    assert!(result.is_err());
}

#[test]
fn unknown_function_is_named_in_the_failure() {
    let mut contract = SmartContract::new("add".to_string());
    assert_eq!(contract.execute("divide", &[1, 2]), Err("Function not found".to_string()));
    assert_eq!(
        contract.execute_with_role("nobody", "add", &[1, 2]),
        Err("Access denied".to_string())
    );
}

#[test]
fn add_and_multiply_of_no_values() {
    let mut contract = SmartContract::new(String::new());
    assert_eq!(contract.execute("add", &[]), Ok(0));
    assert_eq!(contract.execute("multiply", &[]), Ok(1));
}

#[test]
fn add_fails_where_a_partial_sum_overflows() {
    let mut contract = SmartContract::new(String::new());
    assert_eq!(contract.execute("add", &[i32::MAX, 1, -1]), Err("Arithmetic overflow".to_string()));
    assert_eq!(contract.execute("add", &[i32::MAX, -1, 1]), Ok(i32::MAX));
    assert_eq!(contract.execute("add", &[i32::MIN, -1]), Err("Arithmetic overflow".to_string()));
}

#[test]
fn multiply_fails_where_a_partial_product_overflows() {
    let mut contract = SmartContract::new(String::new());
    assert_eq!(
        contract.execute("multiply", &[65536, 65536, 0]),
        Err("Arithmetic overflow".to_string())
    );
    assert_eq!(contract.execute("multiply", &[0, 65536, 65536]), Ok(0));
    assert_eq!(contract.execute("multiply", &[-4, 5, -6]), Ok(120));
}

#[test]
fn pause_resume_and_terminate_leave_the_contract_alone() {
    let mut contract = SmartContract::new("add".to_string());
    contract.add_role("admin".to_string());
    contract.pause();
    assert_eq!(contract.execute("add", &[4, 5]), Ok(9));
    contract.resume();
    contract.terminate();
    assert_eq!(contract.execute_with_role("admin", "add", &[4, 5]), Ok(9));
    assert_eq!(contract.code, "add");
}

#[test]
fn audit_reports_the_forbidden_word() {
    let clean = SmartContract::new("fn add(a, b) { a + b }".to_string());
    assert!(clean.audit().is_empty());
    let flagged = SmartContract::new("let p = unsafe { read(q) };".to_string());
    assert_eq!(flagged.audit(), vec!["Unsafe operations detected".to_string()]);
    let nearly = SmartContract::new("unsaf e".to_string());
    assert!(nearly.audit().is_empty());
}

#[test]
fn machine_charges_ten_for_a_loop_and_five_for_a_branch() {
    let mut vm = VirtualMachine::new(100);
    assert_eq!(vm.execute("loop { if x { } }", &[]), Ok(0));
    assert_eq!(vm.gas_used, 10);
    assert_eq!(vm.execute("if x { }", &[]), Ok(0));
    assert_eq!(vm.gas_used, 15);
    assert_eq!(vm.execute("return 1", &[]), Ok(0));
    assert_eq!(vm.gas_used, 15);
}

#[test]
fn machine_fails_once_the_limit_is_passed() {
    let mut vm = VirtualMachine::new(10);
    assert_eq!(vm.execute("loop", &[]), Ok(0));
    assert_eq!(vm.gas_used, 10);
    assert_eq!(vm.execute("if", &[]), Err("Gas limit exceeded".to_string()));
    assert_eq!(vm.gas_used, 15);
    assert_eq!(vm.gas_limit, 10);
}

#[test]
fn machine_gas_stops_at_the_largest_number() {
    let mut vm = VirtualMachine::new(u64::MAX);
    vm.gas_used = u64::MAX - 3;
    assert_eq!(vm.execute("loop", &[]), Err("Gas limit exceeded".to_string()));
    assert_eq!(vm.gas_used, u64::MAX);
}

#[test]
fn execute_with_gas_starts_afresh() {
    let mut vm = VirtualMachine::new(0);
    vm.gas_used = 77;
    assert_eq!(vm.execute_with_gas("loop", &[1], 10), Ok(0));
    assert_eq!(vm.gas_used, 10);
    assert_eq!(vm.gas_limit, 10);
    assert_eq!(vm.execute_with_gas("loop", &[1], 9), Err("Gas limit exceeded".to_string()));
    assert_eq!(vm.optimize_execution("if", &[1]), Ok(0));
    assert_eq!(vm.gas_limit, 1000);
    assert_eq!(vm.gas_used, 5);
}

#[test]
fn execute_with_validation_refuses_negative_values() {
    let mut vm = VirtualMachine::new(100);
    assert_eq!(
        vm.execute_with_validation("loop", &[1, -2, 3]),
        Err("Invalid input: negative values are not allowed".to_string())
    );
    assert_eq!(vm.gas_used, 0);
    assert_eq!(vm.execute_with_validation("loop", &[1, 0, 3]), Ok(0));
    assert_eq!(vm.gas_used, 10);
}

#[test]
fn events_reach_their_subscribers_in_order() {
    let log: Rc<RefCell<Vec<String>>> = Rc::new(RefCell::new(Vec::new()));
    let mut manager: EventManager<Box<dyn Fn(&str)>> = EventManager::new();
    let first = Rc::clone(&log);
    manager.subscribe("mined", Box::new(move |data: &str| first.borrow_mut().push(format!("a:{}", data))));
    let second = Rc::clone(&log);
    manager.subscribe("forked", Box::new(move |data: &str| second.borrow_mut().push(format!("b:{}", data))));
    let third = Rc::clone(&log);
    manager.subscribe("mined", Box::new(move |data: &str| third.borrow_mut().push(format!("c:{}", data))));

    assert_eq!(manager.emit("mined", "7"), 2);
    assert_eq!(manager.emit("forked", "x"), 1);
    assert_eq!(manager.emit("unknown", "y"), 0);
    assert_eq!(*log.borrow(), vec!["a:7".to_string(), "c:7".to_string(), "b:x".to_string()]);
}
