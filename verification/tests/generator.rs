use ts_bindgen::descriptor::DojoContract;
use ts_bindgen::descriptor::Function;
use ts_bindgen::generator::TsFunctionGenerator;

fn create_change_theme_function() -> Function {
    create_test_function(
        "change_theme",
        vec![("value".to_owned(), "core::integer::u8".to_owned())],
    )
}

fn create_increate_global_counter_function() -> Function {
    create_test_function("increase_global_counter", vec![])
}

fn create_test_function(name: &str, inputs: Vec<(String, String)>) -> Function {
    Function { name: name.to_owned(), inputs }
}

fn create_dojo_contract() -> DojoContract {
    DojoContract { tag: "onchain_dash-actions".to_owned() }
}

#[test]
fn test_check_imports() {
    let generator = TsFunctionGenerator {};
    let mut buff: Vec<String> = Vec::new();

    // check imports are added only once
    generator.check_imports(&mut buff);
    assert_eq!(buff.len(), 3);
    generator.check_imports(&mut buff);
    assert_eq!(buff.len(), 3);
}

#[test]
fn test_setup_function_wrapper_start() {
    let generator = TsFunctionGenerator {};
    let mut buff: Vec<String> = Vec::new();
    let idx = generator.setup_function_wrapper_start(&create_dojo_contract(), &mut buff);

    assert_eq!(buff.len(), 1);
    assert_eq!(idx, 0);
}

#[test]
fn test_generate_system_function() {
    let generator = TsFunctionGenerator {};
    let function = create_change_theme_function();
    let expected = "\tconst changeTheme = async (account: Account, value: number) => {
\t\ttry {
\t\t\treturn await provider.execute(\n
\t\t\t\taccount,
\t\t\t\t{
\t\t\t\t\tcontractName,
\t\t\t\t\tentryPoint: \"change_theme\",
\t\t\t\t\tcalldata: [value],
\t\t\t\t}
\t\t\t);
\t\t} catch (error) {
\t\t\tconsole.error(error);
\t\t}
\t};\n";

    assert_eq!(expected, generator.generate_system_function(&function))
}

#[test]
fn test_format_function_inputs() {
    let generator = TsFunctionGenerator {};
    let function = create_change_theme_function();
    let expected = "account: Account, value: number";
    assert_eq!(expected, generator.format_function_inputs(&function))
}

#[test]
fn test_format_function_calldata() {
    let generator = TsFunctionGenerator {};
    let function = create_change_theme_function();
    let expected = "value";
    assert_eq!(expected, generator.format_function_calldata(&function))
}

#[test]
fn test_append_function_body() {
    let generator = TsFunctionGenerator {};
    let mut buff = vec!["import".to_owned(), "function wrapper".to_owned()];

    generator.append_function_body(1, &mut buff, "function body".to_owned());

    assert_eq!(buff[2], "function body".to_owned());
}

#[test]
fn test_setup_function_wrapper_end() {
    let generator = TsFunctionGenerator {};
    let mut buff: Vec<String> = Vec::new();

    generator.setup_function_wrapper_end(&create_change_theme_function(), &mut buff);

    let expected = "\treturn {
\t\tchangeTheme,
\t};
}";

    assert_eq!(1, buff.len());
    assert_eq!(expected, buff[0]);

    generator.setup_function_wrapper_end(&create_increate_global_counter_function(), &mut buff);
    let expected_2 = "\treturn {
\t\tchangeTheme,
\t\tincreaseGlobalCounter,
\t};
}";
    assert_eq!(1, buff.len());
    assert_eq!(expected_2, buff[0]);
}

#[test]
fn test_it_generates_function() {
    let generator = TsFunctionGenerator {};
    let mut buffer = Vec::new();
    let change_theme = create_change_theme_function();

    let _ = generator.generate(&create_dojo_contract(), &change_theme, &mut buffer);
    assert_eq!(buffer.len(), 6);
    let increase_global_counter = create_increate_global_counter_function();
    let _ = generator.generate(&create_dojo_contract(), &increase_global_counter, &mut buffer);
    assert_eq!(buffer.len(), 7);
}
