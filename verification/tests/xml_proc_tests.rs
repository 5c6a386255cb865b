use xml_tree::text::clean_user_input;
use xml_tree::tree_struct::Node;
use xml_tree::xml_proc::calculate_indentation;
use xml_tree::xml_proc::find_attributes;
use xml_tree::xml_proc::find_name;
use xml_tree::xml_proc::get_first_tag;
use xml_tree::xml_proc::get_inner_element;
use xml_tree::xml_proc::is_comment;
use xml_tree::xml_proc::is_newline_inner_element;
use xml_tree::xml_proc::is_prolog;
use xml_tree::xml_proc::process_line_list;
use xml_tree::xml_proc::tree_id_to_node;
use xml_tree::xml_proc::trim_line;
use xml_tree::xml_proc::ParseError;

fn example_xml() -> Vec<String> {
    vec![
        "<root>".to_string(),
        "    <head>".to_string(),
        "        <title author=\"John Doe\" version=\"1.0\">Main Chapter</title>".to_string(),
        "        <paragraph>".to_string(),
        "            Here is a paragraph with predefined characters: &lt; &gt; &amp; &apos; &quot;"
            .to_string(),
        "        </paragraph>".to_string(),
        "    </head>".to_string(),
        "    <body id=\"chapter 1\">".to_string(),
        "        <h3>".to_string(),
        "            This is the story".to_string(),
        "        </h3>".to_string(),
        "    </body>".to_string(),
        "</root>".to_string(),
    ]
}

#[test]
fn test_function() {}

#[test]
fn test_is_prolog() {
    let xml_prolog: String = r#"<?xml version="1.0" encoding="UTF-8"?>"#.to_string();
    let is_prolog: bool = is_prolog(&xml_prolog);
    assert!(is_prolog);
}

#[test]
fn test_get_name() {
    let line = "section id=\"1\" name=\"Introduction\"".to_string();
    assert_eq!(find_name(&line), "section");
    let line = "root".to_string();
    assert_eq!(find_name(&line), "root");
    let line = "".to_string();
    assert_eq!(find_name(&line), "ERROR!");
}

#[test]
fn test_get_first_tag() {
    let line_1 = "<title>".to_string();
    let line_2 = "<section id=\"1\" name=\"Introduction\">".to_string();
    let line_3: String =
        "<title author=\"John Doe\" version=\"1.0\">Main Chapter</title>".to_string();

    assert_eq!(get_first_tag(&line_1), "<title>");
    assert_eq!(get_first_tag(&line_2), "<section id=\"1\" name=\"Introduction\">");
    assert_eq!(get_first_tag(&line_3), "<title author=\"John Doe\" version=\"1.0\">");
}

#[test]
fn test_get_inner_element() {
    let line_1 = "Main Chapter</title>".to_string();

    assert_eq!(get_inner_element(&line_1), "Main Chapter");
}

#[test]
fn test_newline_inner_element() {
    let line_1: String = "<root>".to_string();
    let line_2: String = "Main Chapter".to_string();
    let line_3: String = "Main Chapter</title>".to_string();
    assert!(!is_newline_inner_element(&line_1));
    assert!(is_newline_inner_element(&line_2));
    assert!(!is_newline_inner_element(&line_3));
}

#[test]
fn test_get_attributes() {
    {
        let xml_prolog: String = "<root>".to_string();
        let first_tag: String = get_first_tag(&xml_prolog);
        assert_eq!(first_tag, "<root>");
        let trimmed_tag: String = trim_line(&first_tag);
        assert_eq!(trimmed_tag, "root");
        let node_name: String = find_name(&trimmed_tag);
        assert_eq!(node_name, "root");
        let trimmed_node: String = trimmed_tag.replace(&node_name, "");
        let attributes = find_attributes(&trimmed_node).unwrap();
        assert_eq!(attributes.len(), 0);
    }

    {
        let xml_prolog: String = "<?xml version=\"1.0\" encoding=\"UTF-8\"?>".to_string();
        let first_tag: String = get_first_tag(&xml_prolog);
        assert_eq!(first_tag, xml_prolog);
        let trimmed_tag: String = trim_line(&first_tag);
        assert_eq!(trimmed_tag, "xml version=\"1.0\" encoding=\"UTF-8\"");
        let node_name: String = find_name(&trimmed_tag);
        assert_eq!(node_name, "xml");
        let trimmed_node: String = trimmed_tag.replace(&node_name, "");
        let attributes = find_attributes(&trimmed_node).unwrap();
        assert_eq!(attributes.get("version").unwrap(), "1.0");
        assert_eq!(attributes.get("encoding").unwrap(), "UTF-8");
    }
}

#[test]
fn test_is_comment() {
    let xml_comment: String =
        "<!-- This is the root node representing the document's structure -->".to_string();
    let is_comment: bool = is_comment(&xml_comment);
    assert!(is_comment);
}

#[test]
fn test_proc_mutiple_lines() {
    let line_list: Vec<String> = example_xml();
    let list_nodes: Vec<Node> = process_line_list(&line_list).unwrap();

    assert_eq!(list_nodes.len(), 6);
    assert_eq!(list_nodes[0].get_name(), "root");
    assert_eq!(list_nodes[1].get_name(), "head");
    assert_eq!(list_nodes[2].get_name(), "title");
    assert_eq!(list_nodes[3].get_name(), "paragraph");
    assert_eq!(list_nodes[4].get_name(), "body");
    assert_eq!(list_nodes[5].get_name(), "h3");
    assert_eq!(list_nodes[2].get_attribute_value("author").unwrap(), "John Doe");
    assert_eq!(list_nodes[2].get_attribute_value("version").unwrap(), "1.0");
    assert_eq!(list_nodes[2].get_inner_element(), "Main Chapter");
    assert_eq!(
        list_nodes[3].get_inner_element(),
        "Here is a paragraph with predefined characters: &lt; &gt; &amp; &apos; &quot;"
    );
    assert_eq!(list_nodes[4].get_attribute_value("id").unwrap(), "chapter 1");
    assert_eq!(list_nodes[5].get_inner_element(), "This is the story");
}

#[test]
fn test_correct_indentation() {
    let line_list: Vec<String> = example_xml();

    let list_nodes: Vec<Node> = process_line_list(&line_list).unwrap();
    assert_eq!(list_nodes[0].get_indentation(), 0);
    assert_eq!(list_nodes[1].get_indentation(), 4);
    assert_eq!(list_nodes[2].get_indentation(), 8);
    assert_eq!(list_nodes[3].get_indentation(), 8);
    assert_eq!(list_nodes[4].get_indentation(), 4);
    assert_eq!(list_nodes[5].get_indentation(), 8);
}

#[test]
fn test_correct_relationship() {
    let line_list: Vec<String> = example_xml();

    let list_nodes: Vec<Node> = process_line_list(&line_list).unwrap();
    assert_eq!(*list_nodes[0].get_child(), vec![1, 7]);
    assert_eq!(list_nodes[1].get_parent(), Some(0));
    assert_eq!(list_nodes[0].get_parent(), None);

    assert_eq!(*list_nodes[1].get_child(), vec![2, 3]);
    assert_eq!(list_nodes[2].get_parent(), Some(1));
    assert_eq!(list_nodes[3].get_parent(), Some(1));

    assert_eq!(*list_nodes[5].get_child(), vec![]);
    assert_eq!(list_nodes[5].get_parent(), Some(7));
}

#[test]
fn test_tree_id_to_node() {
    let line_list: Vec<String> = example_xml();

    let list_nodes: Vec<Node> = process_line_list(&line_list).unwrap();
    let id_to_node = tree_id_to_node(&list_nodes);

    assert_eq!(id_to_node.get(&0).unwrap().get_name(), "root");
    assert_eq!(id_to_node.get(&1).unwrap().get_name(), "head");
    assert_eq!(id_to_node.get(&2).unwrap().get_name(), "title");
    assert_eq!(id_to_node.get(&3).unwrap().get_name(), "paragraph");
    assert_eq!(id_to_node.get(&7).unwrap().get_name(), "body");
    assert_eq!(id_to_node.get(&8).unwrap().get_name(), "h3");
}

#[test]
fn attribute_round_trip() {
    let line = "<section id=\"1\" name=\"Intro\">".to_string();
    let nodes = process_line_list(&vec![line]).unwrap();
    assert_eq!(nodes.len(), 1);
    assert_eq!(nodes[0].get_name(), "section");
    assert_eq!(nodes[0].get_attribute_value("id").unwrap(), "1");
    assert_eq!(nodes[0].get_attribute_value("name").unwrap(), "Intro");
    assert_eq!(nodes[0].get_all_attributes().len(), 2);
}

#[test]
fn sample_scenario_three_records() {
    let lines = vec![
        "<root>".to_string(),
        "  <head>".to_string(),
        "    <title a=\"x\">Main</title>".to_string(),
        "  </head>".to_string(),
        "</root>".to_string(),
    ];
    let nodes = process_line_list(&lines).unwrap();
    assert_eq!(nodes.len(), 3);
    assert_eq!(nodes[0].get_name(), "root");
    assert_eq!(nodes[0].get_id(), 0);
    assert!(nodes[0].is_root());
    assert_eq!(*nodes[0].get_child(), vec![1]);
    assert_eq!(nodes[1].get_name(), "head");
    assert_eq!(nodes[1].get_id(), 1);
    assert_eq!(nodes[1].get_parent(), Some(0));
    assert_eq!(*nodes[1].get_child(), vec![2]);
    assert_eq!(nodes[2].get_name(), "title");
    assert_eq!(nodes[2].get_id(), 2);
    assert_eq!(nodes[2].get_parent(), Some(1));
    assert_eq!(nodes[2].get_inner_element(), "Main");
    assert_eq!(nodes[2].get_attribute_value("a").unwrap(), "x");
}

#[test]
fn prolog_and_comment_lines_make_no_records() {
    let lines = vec![
        "<?xml version=\"1.0\"?>".to_string(),
        "<!-- a comment -->".to_string(),
        "<root>".to_string(),
        "</root>".to_string(),
    ];
    let nodes = process_line_list(&lines).unwrap();
    assert_eq!(nodes.len(), 1);
    assert_eq!(nodes[0].get_name(), "root");
    assert!(nodes[0].is_root());
}

#[test]
fn bare_text_before_any_record_is_dropped() {
    let lines = vec!["stray text".to_string(), "<root>".to_string(), "</root>".to_string()];
    let nodes = process_line_list(&lines).unwrap();
    assert_eq!(nodes.len(), 1);
    assert_eq!(nodes[0].get_inner_element(), "");
}

#[test]
fn self_closing_tag_single_record() {
    let lines = vec!["<root>".to_string(), "  <br/>".to_string(), "</root>".to_string()];
    let nodes = process_line_list(&lines).unwrap();
    assert_eq!(nodes.len(), 2);
    assert_eq!(nodes[1].get_name(), "br");
    assert_eq!(nodes[1].get_parent(), Some(0));
    assert_eq!(*nodes[0].get_child(), vec![1]);
}

#[test]
fn two_roots_detected() {
    let lines = vec![
        "<a>".to_string(),
        "</a>".to_string(),
        "<b>".to_string(),
        "</b>".to_string(),
    ];
    let nodes = process_line_list(&lines).unwrap();
    assert_eq!(nodes.len(), 2);
    assert!(nodes[0].is_root());
    assert!(nodes[1].is_root());
    assert_eq!(nodes[0].get_parent(), None);
    assert_eq!(nodes[1].get_parent(), None);
}

#[test]
fn malformed_tag_is_fatal() {
    let lines = vec!["<root>".to_string(), "  <broken".to_string()];
    let err = match process_line_list(&lines) {
        Ok(_) => panic!("expected a malformed-tag failure"),
        Err(e) => e,
    };
    assert_eq!(err, ParseError::MalformedTag { line: 1 });
}

#[test]
fn malformed_attributes_are_fatal() {
    let lines = vec!["<a x=\"1>".to_string()];
    let err = match process_line_list(&lines) {
        Ok(_) => panic!("expected a malformed-attribute failure"),
        Err(e) => e,
    };
    assert_eq!(err, ParseError::MalformedAttributes { line: 0 });
}

#[test]
fn indentation_counts_spaces_before_tag() {
    assert_eq!(calculate_indentation(&"   <a>".to_string()), 3);
    assert_eq!(calculate_indentation(&"no tag here".to_string()), 0);
    assert_eq!(calculate_indentation(&"\t <a>".to_string()), 1);
}

#[test]
fn user_input_is_cleaned() {
    let mut s = "42\r\n".to_string();
    let cleaned = clean_user_input(&mut s);
    assert_eq!(cleaned, "42");
    assert_eq!(s, "42");
}
