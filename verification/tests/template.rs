use infino_sink::fields::Label;
use infino_sink::template::{Template, TemplatePart};

fn literal(text: &str) -> TemplatePart {
    TemplatePart::Literal(text.to_string())
}

fn field(name: &str) -> TemplatePart {
    TemplatePart::Field(name.to_string())
}

fn parts(text: &str) -> Vec<TemplatePart> {
    Template::parse(text).parts
}

#[test]
fn text_without_braces_is_one_literal() {
    assert_eq!(parts("vector"), vec![literal("vector")]);
    assert_eq!(parts(""), vec![]);
    assert_eq!(parts("a{b}c"), vec![literal("a{b}c")]);
    assert_eq!(Template::parse("vector"), Template::literal("vector"));
}

#[test]
fn field_names_stand_between_double_braces() {
    assert_eq!(parts("{{ service }}"), vec![field("service")]);
    assert_eq!(parts("{{service}}"), vec![field("service")]);
    assert_eq!(
        parts("app-{{ service }}-{{env}}-v1"),
        vec![literal("app-"), field("service"), literal("-"), field("env"), literal("-v1")]
    );
    assert_eq!(parts("{{ a }}{{ b }}"), vec![field("a"), field("b")]);
    assert_eq!(parts("{{ two words }}"), vec![field("two words")]);
    assert_eq!(parts("{{}}"), vec![field("")]);
    assert_eq!(parts("{{   }}"), vec![field("")]);
    assert_eq!(parts("grüße-{{ näme }}"), vec![literal("grüße-"), field("näme")]);
}

#[test]
fn braces_that_are_not_closed_are_literal() {
    assert_eq!(parts("app-{{ service"), vec![literal("app-{{ service")]);
    assert_eq!(parts("{{ a }}-{{ b"), vec![field("a"), literal("-{{ b")]);
    assert_eq!(parts("}}{{"), vec![literal("}}{{")]);
    assert_eq!(parts("{{{ a }}}"), vec![field("{ a"), literal("}")]);
}

#[test]
fn a_parsed_template_is_filled_from_fields() {
    let template = Template::parse("app-{{ service }}-{{ env }}");
    let fields = vec![
        Label { key: "env".to_string(), value: "prod".to_string() },
        Label { key: "service".to_string(), value: "web".to_string() },
    ];
    assert_eq!(template.render(&fields), Some("app-web-prod".to_string()));
    assert_eq!(template.render(&fields[..1].to_vec()), None);
    assert_eq!(template.duplicate(), template);
}
