use omc_registry::error::OmcRegistryError;
use omc_registry::python_literals::{
    python_keyword_assignment_values, python_literal_value_end, python_string_literal_at,
    python_string_literals, setup_py_install_requires, skip_python_ws_and_comments,
    unescape_python_string,
};
use omc_registry::script_metadata::inline_script_metadata;
use omc_registry::setup_cfg::setup_cfg_key_value;

fn chars(s: &str) -> Vec<char> {
    s.chars().collect()
}

fn texts(v: &[Vec<char>]) -> Vec<String> {
    v.iter().map(|c| c.iter().collect()).collect()
}

#[test]
fn keyword_assignments_yield_their_literal_values() {
    let source = chars(
        "from setuptools import setup\n\
         setup(name='x', install_requires=['a>=1', \"b\"], extras_require={'dev': ['c']})\n",
    );
    assert_eq!(
        texts(&python_keyword_assignment_values(&source, &chars("install_requires"))),
        vec!["['a>=1', \"b\"]".to_string()]
    );
    assert_eq!(
        texts(&python_keyword_assignment_values(&source, &chars("extras_require"))),
        vec!["{'dev': ['c']}".to_string()]
    );
}

#[test]
fn keywords_inside_strings_comments_and_longer_names_are_skipped() {
    let source = chars(
        "x = 'install_requires = [1]'\n\
         # install_requires = [2]\n\
         my_install_requires = [3]\n\
         install_requires = # note\n  ('four',)\n",
    );
    assert_eq!(
        texts(&python_keyword_assignment_values(&source, &chars("install_requires"))),
        vec!["('four',)".to_string()]
    );
}

#[test]
fn string_literals_skip_bytes_fstrings_and_comments() {
    let source = chars("['a>=1', \"b\", b'x', f'y', # 'c'\n r'd\\n', '''e''']");
    assert_eq!(
        texts(&python_string_literals(&source)),
        vec!["a>=1".to_string(), "b".to_string(), "d\n".to_string(), "e".to_string()]
    );
}

#[test]
fn string_literal_positions() {
    let source = chars("  'ab\\'c' rest");
    assert_eq!(python_string_literal_at(&source, 0), None);
    let (value, end) = python_string_literal_at(&source, 2).unwrap();
    assert_eq!(value.map(|v| v.iter().collect::<String>()), Some("ab'c".to_string()));
    assert_eq!(end, 9);
    assert_eq!(python_string_literal_at(&chars("'open"), 0), None);
    assert_eq!(skip_python_ws_and_comments(&chars("  # c\n  x"), 0), 8);
    assert_eq!(python_literal_value_end(&chars("[1, (2, ']'), {3}] tail"), 0), Some(18));
    assert_eq!(python_literal_value_end(&chars("[1, 2"), 0), None);
}

#[test]
fn escapes_are_resolved() {
    let out: String = unescape_python_string(&chars("a\\nb\\t\\\\\\q\\")).iter().collect();
    assert_eq!(out, "a\nb\t\\\\q\\");
}

#[test]
fn inline_script_metadata_block() {
    let script = "#!/usr/bin/env python\n# /// script\n# dependencies = [\"requests\"]\n#\n# ///\nprint()\n";
    assert_eq!(
        inline_script_metadata(script),
        Ok(Some("dependencies = [\"requests\"]\n\n".to_string()))
    );
    assert_eq!(inline_script_metadata("print()\n"), Ok(None));
    assert_eq!(inline_script_metadata("# /// script\n# a = 1\nprint()\n# ///\n"), Ok(None));
}

#[test]
fn two_inline_script_metadata_blocks_are_refused() {
    let script = "# /// script\n# a = 1\n# ///\n# /// script\n# b = 2\n# ///\n";
    assert_eq!(
        inline_script_metadata(script),
        Err(OmcRegistryError::UnsupportedRequirement(
            "multiple inline script metadata blocks found".to_string()
        ))
    );
}

#[test]
fn setup_cfg_keys_are_normalized() {
    let pair = setup_cfg_key_value(&chars("Install-Requires = a>=1")).unwrap();
    assert_eq!(pair.0.iter().collect::<String>(), "install_requires");
    assert_eq!(pair.1.iter().collect::<String>(), "a>=1");
    assert_eq!(setup_cfg_key_value(&chars("= x")), None);
    assert_eq!(setup_cfg_key_value(&chars("key == x")), None);
    assert_eq!(setup_cfg_key_value(&chars("a b = c")), None);
    assert_eq!(setup_cfg_key_value(&chars("no value here")), None);
}

#[test]
fn setup_py_requirements_are_the_strings_of_install_requires() {
    let source = chars(
        "setup(\n    install_requires=[\n        'requests>=2',  # http\n        \"click\",\n    ],\n    tests_require=['pytest'],\n)\n",
    );
    assert_eq!(
        texts(&setup_py_install_requires(&source)),
        vec!["requests>=2".to_string(), "click".to_string()]
    );
}
