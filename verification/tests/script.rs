use dino::script::{
    after_keyword, is_name, read_declared, read_name, read_quoted, read_script, trim, Script,
};

fn chars(s: &str) -> Vec<char> {
    s.chars().collect()
}

fn text(v: Vec<char>) -> String {
    v.into_iter().collect()
}

#[test]
fn trim_takes_blanks_off_both_ends() {
    assert_eq!(text(trim(&chars("  a b\t\r"))), "a b");
    assert_eq!(text(trim(&chars("a"))), "a");
    assert_eq!(text(trim(&chars(" \t "))), "");
    assert_eq!(text(trim(&chars(""))), "");
}

#[test]
fn names_end_at_the_first_other_character() {
    assert_eq!(text(read_name(&chars("main;"), 0)), "main");
    assert_eq!(text(read_name(&chars("a_b$9(x)"), 0)), "a_b$9");
    assert_eq!(text(read_name(&chars("fn hello(req)"), 3)), "hello");
    assert_eq!(text(read_name(&chars("(x)"), 0)), "");
    assert_eq!(text(read_name(&chars("ab"), 9)), "");
    assert!(is_name('a') && is_name('Z') && is_name('0') && is_name('_') && is_name('$'));
    assert!(!is_name('-') && !is_name(' ') && !is_name('\u{e9}'));
}

#[test]
fn quoted_text_stands_between_quotes_of_one_kind() {
    assert_eq!(read_quoted(&chars(r#"import x from "./a.ts";"#)).map(text), Some("./a.ts".to_string()));
    assert_eq!(read_quoted(&chars("import 'it\"s'")).map(text), Some("it\"s".to_string()));
    assert_eq!(read_quoted(&chars(r#"import "open"#)), None);
    assert_eq!(read_quoted(&chars("import x")), None);
    assert_eq!(read_quoted(&chars(r#""""#)).map(text), Some(String::new()));
}

#[test]
fn keywords_and_declarations() {
    assert_eq!(after_keyword(&chars("export x"), "export ").map(text), Some("x".to_string()));
    assert_eq!(after_keyword(&chars("exports"), "export "), None);
    assert_eq!(read_declared(&chars("async function go() {")).map(text), Some("go".to_string()));
    assert_eq!(read_declared(&chars("function go() {")).map(text), Some("go".to_string()));
    assert_eq!(read_declared(&chars("const a = 1;")).map(text), Some("a".to_string()));
    assert_eq!(read_declared(&chars("let b;")).map(text), Some("b".to_string()));
    assert_eq!(read_declared(&chars("var c")).map(text), Some("c".to_string()));
    assert_eq!(read_declared(&chars("class D {}")), None);
}

#[test]
fn a_script_is_read_line_by_line() {
    let main = "import { execute } from \"./lib.ts\";\n\nasync function main() {\n  console.log(await execute(\"world\"));\r\n}\nexport default main;\n";
    assert_eq!(
        read_script(main),
        Script {
            imports: vec!["./lib.ts".to_string()],
            exports: vec![("default".to_string(), "main".to_string())],
            source: "async function main() {\nconsole.log(await execute(\"world\"));\n}\n".to_string(),
        }
    );
    let lib = "export async function execute(name) {\n  return `Hello ${name}!`;\n}\nexport const answer = 42;";
    assert_eq!(
        read_script(lib),
        Script {
            imports: Vec::new(),
            exports: vec![
                ("execute".to_string(), "execute".to_string()),
                ("answer".to_string(), "answer".to_string())
            ],
            source: "async function execute(name) {\nreturn `Hello ${name}!`;\n}\nconst answer = 42;\n"
                .to_string(),
        }
    );
}

#[test]
fn a_script_keeps_what_it_cannot_read_as_statements() {
    assert_eq!(
        read_script("import nothing\nexport { a }\nexport default function run() {}"),
        Script {
            imports: Vec::new(),
            exports: vec![("default".to_string(), "run".to_string())],
            source: "import nothing\nexport { a }\nfunction run() {}\n".to_string(),
        }
    );
    assert_eq!(
        read_script(""),
        Script {
            imports: Vec::new(),
            exports: Vec::new(),
            source: String::new(),
        }
    );
}
