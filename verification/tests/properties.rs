use ts_bindgen::descriptor::DojoContract;
use ts_bindgen::descriptor::Function;
use ts_bindgen::descriptor::get_name_from_tag;
use ts_bindgen::descriptor::js_type;
use ts_bindgen::descriptor::short_name;
use ts_bindgen::generator::TsFunctionGenerator;

fn contract() -> DojoContract {
    DojoContract { tag: "onchain_dash-actions".to_owned() }
}

fn change_theme() -> Function {
    Function {
        name: "change_theme".to_owned(),
        inputs: vec![("value".to_owned(), "core::integer::u8".to_owned())],
    }
}

fn increase_global_counter() -> Function {
    Function { name: "increase_global_counter".to_owned(), inputs: vec![] }
}

fn reset_counter() -> Function {
    Function { name: "reset_counter".to_owned(), inputs: vec![] }
}

#[test]
fn test_preamble_unique_for_two_functions() {
    let generator = TsFunctionGenerator {};
    let mut buffer: Vec<String> = Vec::new();
    let c = contract();
    let _ = generator.generate(&c, &change_theme(), &mut buffer);
    let _ = generator.generate(&c, &increase_global_counter(), &mut buffer);
    let preambles = buffer.iter().filter(|b| b.contains("setupWorld")).count();
    assert_eq!(preambles, 1);
    let with_name = buffer.iter().filter(|b| b.contains("actions")).count();
    assert_eq!(with_name, 1);
}

#[test]
fn test_bodies_keep_generation_order() {
    let generator = TsFunctionGenerator {};
    let mut buffer: Vec<String> = Vec::new();
    let c = contract();
    let _ = generator.generate(&c, &change_theme(), &mut buffer);
    let _ = generator.generate(&c, &increase_global_counter(), &mut buffer);
    let _ = generator.generate(&c, &reset_counter(), &mut buffer);
    assert_eq!(buffer.len(), 8);
    assert!(buffer[4].starts_with("\tconst changeTheme"));
    assert!(buffer[5].starts_with("\tconst increaseGlobalCounter"));
    assert!(buffer[6].starts_with("\tconst resetCounter"));
    assert!(buffer[7].starts_with("\treturn {"));
}

#[test]
fn test_export_accumulates_members_in_order() {
    let generator = TsFunctionGenerator {};
    let mut buffer: Vec<String> = Vec::new();
    let c = contract();
    let _ = generator.generate(&c, &change_theme(), &mut buffer);
    let before = buffer.len();
    let _ = generator.generate(&c, &increase_global_counter(), &mut buffer);
    assert_eq!(buffer.len(), before + 1);
    let expected = "\treturn {\n\t\tchangeTheme,\n\t\tincreaseGlobalCounter,\n\t};\n}";
    assert_eq!(expected, buffer[buffer.len() - 1]);
    let _ = generator.generate(&c, &reset_counter(), &mut buffer);
    let expected_3 =
        "\treturn {\n\t\tchangeTheme,\n\t\tincreaseGlobalCounter,\n\t\tresetCounter,\n\t};\n}";
    assert_eq!(expected_3, buffer[buffer.len() - 1]);
}

#[test]
fn test_generation_is_deterministic() {
    let generator = TsFunctionGenerator {};
    let c = contract();
    let mut first: Vec<String> = Vec::new();
    let mut second: Vec<String> = Vec::new();
    let _ = generator.generate(&c, &change_theme(), &mut first);
    let _ = generator.generate(&c, &increase_global_counter(), &mut first);
    let _ = generator.generate(&c, &change_theme(), &mut second);
    let _ = generator.generate(&c, &increase_global_counter(), &mut second);
    assert_eq!(first, second);
}

#[test]
fn test_generate_returns_empty_success() {
    let generator = TsFunctionGenerator {};
    let mut buffer: Vec<String> = Vec::new();
    let r = generator.generate(&contract(), &change_theme(), &mut buffer);
    assert_eq!(r.ok(), Some(String::new()));
}

#[test]
fn test_display_name_from_tag() {
    assert_eq!(get_name_from_tag("onchain_dash-actions"), "actions");
    assert_eq!(get_name_from_tag("actions"), "actions");
    assert_eq!(get_name_from_tag("a-b-c"), "c");
}

#[test]
fn test_short_name_of_type_path() {
    assert_eq!(short_name("core::integer::u8"), "u8");
    assert_eq!(short_name("u8"), "u8");
    assert_eq!(short_name("core::felt252"), "felt252");
}

#[test]
fn test_js_type_table_and_fallback() {
    assert_eq!(js_type("bool"), "boolean");
    assert_eq!(js_type("u8"), "number");
    assert_eq!(js_type("u32"), "number");
    assert_eq!(js_type("u128"), "bigint");
    assert_eq!(js_type("felt252"), "string");
    assert_eq!(js_type("ContractAddress"), "string");
    // the documented fallback for unrecognized source types
    assert_eq!(js_type("MyCustomEnum"), "any");
}

#[test]
fn test_inputs_with_unknown_type_use_fallback() {
    let generator = TsFunctionGenerator {};
    let f = Function {
        name: "spawn".to_owned(),
        inputs: vec![
            ("who".to_owned(), "core::starknet::ContractAddress".to_owned()),
            ("config".to_owned(), "my_game::models::Config".to_owned()),
        ],
    };
    let expected = "account: Account, who: string, config: any";
    assert_eq!(expected, generator.format_function_inputs(&f));
    assert_eq!("who, config", generator.format_function_calldata(&f));
}

#[test]
fn test_inputs_empty_is_account_only() {
    let generator = TsFunctionGenerator {};
    let f = increase_global_counter();
    assert_eq!("account: Account", generator.format_function_inputs(&f));
    assert_eq!("", generator.format_function_calldata(&f));
}

#[test]
fn test_import_lines_exact() {
    let generator = TsFunctionGenerator {};
    let mut buff: Vec<String> = Vec::new();
    generator.check_imports(&mut buff);
    assert_eq!(buff[0], "import { DojoProvider } from \"@dojoengine/core\";");
    assert_eq!(buff[1], "import { Account } from \"starknet\";");
    assert_eq!(buff[2], "import * as models from \"./models.gen\";\n");
}
