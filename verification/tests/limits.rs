use odin::context::limits::{can_read, can_take, can_take_expr};
use odin::context::refs::{analyze, Analysis};
use odin::context::render::{eval_when, guard, render_template, Context};

const REFUSED: &str = "template error in t: the template uses what is not supported";

fn ctx() -> Context {
    Context::new().with_root(
        "params",
        r#"{"x":"ab","n":3,"xs":["p","q"],"rows":[{"n":1,"k":"a"},{"n":2,"k":"b"}]}"#.to_owned(),
    )
}

fn shows(template: &str, text: &str) {
    match render_template(template, &ctx(), "t") {
        Ok(r) => assert_eq!(r, text, "{template}"),
        Err(e) => panic!("{template}: {}", e.to_string()),
    }
}

fn refuses(template: &str) {
    match render_template(template, &ctx(), "t") {
        Ok(r) => panic!("{template}: {r}"),
        Err(e) => assert_eq!(e.to_string(), REFUSED, "{template}"),
    }
}

fn syntax(source: &str) -> String {
    match analyze(source) {
        Analysis::Syntax(e) => e,
        Analysis::Vars(v) => panic!("{source}: {v:?}"),
    }
}

fn vars(source: &str) -> Vec<String> {
    match analyze(source) {
        Analysis::Vars(mut v) => {
            v.sort();
            v
        }
        Analysis::Syntax(e) => panic!("{source}: {e}"),
    }
}

#[test]
fn ordinary_templates_render() {
    shows("plain { text } % #", "plain { text } % #");
    shows("{{ params.x }}-{{ params['x'] }}-{{ params.xs[1] }}", "ab-ab-q");
    shows("{{ 'a' if params.n > 2 and not false else 'b' }}", "a");
    shows("{% if params.n == 1 %}1{% elif params.n == 3 %}3{% else %}?{% endif %}", "3");
    shows("{% for x in params.xs %}{{ x }}{% if not loop.last %},{% endif %}{% endfor %}", "p,q");
    shows("{% for r in params.rows if r.n > 1 %}{{ r.k }}{% else %}none{% endfor %}", "b");
    shows("{% set a = params.x ~ '!' %}{{ a }}{{- a -}} ", "ab!ab!");
    shows("{{ (params.n + 1) * 2 - 10 // 3 }}", "5");
    shows("{{ {'a': [1, 2.5, none]}.a[1] }}", "2.5");
    shows(r#"{{ "it\"s" }}{{ 'a' in params.x }}"#, "it\"sTrue");
    shows("{# {{ 1 is divisibleby(0) }} #}ok{% raw %}{{ x[::-1] }}{% endraw %}", "ok{{ x[::-1] }}");
}

#[test]
fn filters_render() {
    shows("{{ params.x | upper | lower | title | trim }}", "Ab");
    shows("{{ params.xs | map('upper') | join('-') }}", "P-Q");
    shows("{{ params.rows | map(attribute='k') | join }}", "ab");
    shows("{{ params.rows | selectattr('n', 'gt', 1) | list | length }}", "1");
    shows("{{ [1, 0, 2] | select | list | sum }}", "3");
    shows("{% for k, v in {'b': 1, 'a': 2} | dictsort %}{{ k }}{{ v }}{% endfor %}", "a2b1");
    shows("{{ [3, 1, 5] | max }}{{ [3, 1, 5] | reverse | first }}", "55");
    shows("{{ 'a-b' | replace('-', '+') }}{{ 'a b' | split | last }}", "a+bb");
    shows("{{ 'a\nb' | indent(2) }}", "a\n  b");
    shows("{{ [1, 2, 3] | batch(2) | length }}{{ [1, 2, 3] | slice(2) | length }}", "22");
    shows("{{ params.missing | default('d') }}{{ params.x | shquote }}", "d'ab'");
}

#[test]
fn tests_and_functions_render() {
    shows("{{ 10 is divisibleby(5) }}{{ 10 is not divisibleby(3) }}", "TrueTrue");
    shows("{{ params.x is defined and params.y is not defined }}", "True");
    shows("{{ params.x is startingwith('a') }}{{ params.n is odd }}", "TrueTrue");
    shows("{{ range(3) | join(',') }};{{ range(1, 3) | join(',') }}", "0,1,2;1,2");
    shows("{{ range(0, 10, 4) | join(',') }};{{ dict(a=1).a }}", "0,4,8;1");
    shows("{% for x in [1, 2, 3] %}{{ loop.cycle('a', 'b') }}{% endfor %}", "aba");
    shows("{% for x in [1, 1, 2] %}{{ loop.changed(x) }} {% endfor %}", "True False True ");
}

#[test]
fn subscripts_and_products_are_bounded() {
    shows("{{ 'abcd'[1:3] }}{{ 'abcd'[:-1] }}{{ [1, 2, 3][1:] | length }}", "bcabc2");
    shows("{{ 'x' * 3 }}{{ 3 * 'y' }}{{ ([1] * 2) | length }}{{ params.n * 2 }}", "xxxyyy26");
}

#[test]
fn a_product_with_a_filtered_count_is_not_rendered() {
    refuses("{{ [1] * 2 | length }}");
    refuses("{{ params.xs * params.n }}");
}

#[test]
fn what_makes_the_engine_fail_is_not_rendered() {
    refuses("{{ 1 is divisibleby(0) }}");
    refuses("{{ 1 is divisibleby 0 }}");
    refuses("{{ 1 is divisibleby(params.n) }}");
    refuses("{{ [1] | select('divisibleby', 0) | list }}");
    refuses("{% for x in [1] %}{{ loop.cycle() }}{% endfor %}");
    refuses("{{ ''[::-1] }}");
    refuses("{{ 'abc'[0:2:-1] }}");
    refuses("{{ params.xs[params.xs[0]:1:2] }}");
    refuses("{{ '%70000d' | format(1) }}");
    refuses("{{ [1] | slice(18446744073709551615) }}");
    refuses("{{ [] | batch(9223372036854775807) }}");
    refuses("{{ 'a' | indent(18446744073709551615) }}");
    refuses("{{ 'a' | indent(width=18446744073709551615) }}");
    refuses("{{ ['a'] | map('indent', 18446744073709551615) | list }}");
    refuses("{{ [0, 0] * 18446744073709551615 }}");
    refuses("{{ [0] * 2 ** 62 }}");
    refuses("{{ range(9223372036854775807, -9223372036854775807, -1) }}");
    refuses("{% set r = range %}{{ r(9, -9, -1) }}");
    refuses("{% set dict = range %}{{ dict(9, -9, -1) }}");
    refuses("{% for x in [1] * 9223372036854775807 %}{% endfor %}");
    refuses("{{ 1 in [0] * 9223372036854775807 }}");
    refuses("{{ params.rows | sort(attribute='n') }}");
    refuses("{{ [9223372036854775807, 9223372036854775808.0, 9223372036854775808] | sort }}");
    refuses("{{ {9223372036854775807: 1, 9223372036854775808.0: 2} }}");
    refuses("{{ 1 is divisibleby(340282366920938463463374607431768211455) }}");
    refuses("{{ range(*[9, -9, -1]) }}");
}

#[test]
fn statements_that_call_each_other_are_not_rendered() {
    refuses("{% macro m() %}{{ m() }}{% endmacro %}{{ m() }}");
    refuses("{% for x in [[1]] recursive %}{{ loop(x) }}{% endfor %}");
    refuses("{% set x %}a{% endset %}{{ x }}");
    refuses("{% set ns = namespace(a=1) %}{{ ns.a }}");
    refuses("{% include 'x' %}");
    refuses("{{ params.x.upper() }}");
}

#[test]
fn long_chains_are_not_compiled() {
    let unary = format!("{{{{ {}1 }}}}", "-".repeat(100_000));
    let sum = format!("{{{{ 1{} }}}}", " + 1".repeat(100_000));
    let open = format!("{{{{ {}1{} }}}}", "(".repeat(40), ")".repeat(40));
    let elifs = format!("{{% if a %}}{}{{% endif %}}", "{% elif b %}".repeat(101));
    for t in [&unary, &sum, &open, &elifs] {
        assert!(!can_read(t));
        assert_eq!(syntax(t), "syntax error: the template is too complex");
        refuses(t);
    }
    let few = format!("{{% if false %}}{}{{% endif %}}", "{% elif true %}y".repeat(1));
    shows(&few, "y");
    let many = format!("{{% if a %}}{}{{% endif %}}", "{% elif b %}".repeat(100));
    assert_eq!(vars(&many), ["a", "b"]);
    let deep = format!("{{{{ {}params.x{} }}}}", "(".repeat(30), ")".repeat(30));
    shows(&deep, "ab");
    let signs = format!("{{{{ {}1 }}}}", "-".repeat(198));
    shows(&signs, "1");
}

#[test]
fn large_constants_are_not_compiled() {
    assert_eq!(
        syntax("{{ 1 in [0] * 9223372036854775807 }}"),
        "syntax error: the template is too complex"
    );
    assert_eq!(
        syntax("{{ [0] * 99 * 99 * 99 }}"),
        "syntax error: the template is too complex"
    );
    assert_eq!(
        syntax("{{ 1 in [0] * true * 9223372036854775807 }}"),
        "syntax error: the template is too complex"
    );
    assert_eq!(vars("{{ 24 * 60 * 60 * days }}"), ["days"]);
    assert_eq!(syntax("{{ 2 ** 100 }}"), "syntax error: the template is too complex");
    assert_eq!(vars("{{ a * b ** 2 }}"), ["a", "b"]);
    assert_eq!(vars("{{ f(*xs, **kw) }}"), ["f", "kw", "xs"]);
    assert_eq!(vars("{% macro m(p) %}{{ p[::-1] }}{% endmacro %}{{ q }}"), ["q"]);
}

#[test]
fn long_lines_are_not_compiled() {
    let line = "x".repeat(65_000);
    assert!(can_read(&line) && can_take(&line) && can_take_expr(&line));
    assert!(can_take(&format!("{line}\n{line}")));
    let line = "x".repeat(65_001);
    assert!(!can_read(&line) && !can_take(&line) && !can_take_expr(&line));
}

#[test]
fn syntax_errors_are_the_engines() {
    assert!(syntax("{{ unclosed ").starts_with("syntax error: "));
    assert!(!syntax("{{ unclosed ").contains("too complex"));
    assert!(!syntax("{{ a ? b }}").contains("too complex"));
    assert!(!syntax("{{ (a ]").contains("too complex"));
    let err = render_template("{{ 'open }}", &ctx(), "t").unwrap_err().to_string();
    assert!(err.contains("syntax error") && err != REFUSED, "{err}");
}

#[test]
fn guards_are_bounded() {
    assert!(eval_when("params.n is divisibleby(3)", &ctx()).unwrap());
    assert!(eval_when("params.xs | length == 2 and params.x[0:1] == 'a'", &ctx()).unwrap());
    assert!(!eval_when("{'a': []}.a", &ctx()).unwrap());
    for e in ["1 is divisibleby(0)", "params.x[::-1]", "true }} x", "[1] * 9223372036854775807"] {
        assert!(!can_take_expr(e));
        assert_eq!(
            guard(e, &ctx()).unwrap_err(),
            "template error in when: the template uses what is not supported"
        );
    }
}

#[test]
fn growth_is_bounded() {
    let mut t = String::from("{% set a = params.x %}");
    for _ in 0..40 {
        t.push_str("{% set a = a ~ a %}");
    }
    t.push_str("{{ a }}");
    refuses(&t);
    let quoted = format!("{{% set a = params.x %}}{}{{{{ a }}}}", "{% set a = [a] ~ '' %}".repeat(40));
    refuses(&quoted);
    shows("{{ params.x ~ '-' ~ params.n ~ '-' ~ params.xs[0] ~ '!' }}", "ab-3-p!");
    let four = "{% set a = params.x %}{% set a = a ~ a %}{% set a = a ~ a %}{{ a }}";
    shows(four, "abababab");
    refuses("{{ params.x | replace('a', 'b') | indent(9) | replace('b', 'c') | list }}");
}

#[test]
fn a_loop_that_runs_on_is_an_error() {
    let t = "{% for a in range(9999) %}{% for b in range(9999) %}{% endfor %}{% endfor %}";
    assert!(can_take(t));
    let err = render_template(t, &ctx(), "t").unwrap_err().to_string();
    assert!(err.contains("ran out of fuel"), "{err}");
}

#[test]
fn the_deepest_value_renders() {
    let nested = format!("{}{}", "[".repeat(254), "]".repeat(254));
    let ctx = Context::new().with_root("deep", nested);
    let wrap = format!("{{% set a = {}a{} %}}", "[".repeat(30), "]".repeat(30));
    let t = format!("{{% set a = deep %}}{}{{{{ a }}}}{{{{ a == [a] }}}}{{{{ a < [a] }}}}", wrap.repeat(15));
    assert!(can_take(&t));
    let depth = 254 + 15 * 30;
    let text = format!("{}{}FalseTrue", "[".repeat(depth), "]".repeat(depth));
    assert_eq!(render_template(&t, &ctx, "t").unwrap(), text);
}

#[test]
fn deep_statements_compile() {
    let ifs = format!("{}x{}", "{% if a %}".repeat(140), "{% endif %}".repeat(140));
    assert_eq!(vars(&ifs), ["a"]);
    let ifs = format!("{}x{}", "{% if true %}".repeat(140), "{% endif %}".repeat(140));
    shows(&ifs, "x");
    let choices = format!("{{{{ {}1 }}}}", "1 if true else ".repeat(49));
    shows(&choices, "1");
    let nots = format!("{{{{ {}true }}}}", "not ".repeat(198));
    shows(&nots, "True");
}
