//! Tests of the tree builder on hand-made event sequences, and of the
//! numeric text parsers.

use game::tmx::node::{read_node_elements, Node, TmxEvent};
use game::tmx::text::{parse_fixed_chars, parse_usize_chars, trim_chars};
use game::tmx::TmxError;

fn root_node() -> Node {
    Node {
        name: "root".to_string(),
        attributes: Vec::new(),
        children: Vec::new(),
        content: String::new(),
    }
}

#[test]
fn builder_nests_children_in_document_order() {
    let events = vec![
        TmxEvent::Skip,
        TmxEvent::Start { name: "map".to_string(), attrs: vec![] },
        TmxEvent::Start {
            name: "layer".to_string(),
            attrs: vec![("name".to_string(), "L".to_string())],
        },
        TmxEvent::Start { name: "data".to_string(), attrs: vec![] },
        TmxEvent::Text("1,2".to_string()),
        TmxEvent::Text(",3".to_string()),
        TmxEvent::End,
        TmxEvent::End,
        TmxEvent::Start { name: "tileset".to_string(), attrs: vec![] },
        TmxEvent::End,
        TmxEvent::End,
        TmxEvent::Eof,
    ];
    let mut root = root_node();
    let mut pos = 0;
    read_node_elements(&mut root, &events, &mut pos);
    assert_eq!(pos, 12);
    assert_eq!(root.children.len(), 1);
    let map = &root.children[0];
    assert_eq!(map.name, "map");
    assert_eq!(map.children.len(), 2);
    let layer = &map.children[0];
    assert_eq!(layer.name, "layer");
    assert_eq!(layer.attributes[0], ("name".to_string(), "L".to_string()));
    // split text runs accumulate
    assert_eq!(layer.children[0].content, "1,2,3");
    assert_eq!(map.children[1].name, "tileset");
}

#[test]
fn builder_attaches_unclosed_nodes_at_end_of_input() {
    let events = vec![
        TmxEvent::Start { name: "a".to_string(), attrs: vec![] },
        TmxEvent::Start { name: "b".to_string(), attrs: vec![] },
    ];
    let mut root = root_node();
    let mut pos = 0;
    read_node_elements(&mut root, &events, &mut pos);
    assert_eq!(root.children.len(), 1);
    assert_eq!(root.children[0].name, "a");
    assert_eq!(root.children[0].children[0].name, "b");
}

#[test]
fn parse_usize_accepts_digits_only() {
    assert_eq!(parse_usize_chars(&vec!['1', '2', '3']), Ok(123));
    assert_eq!(parse_usize_chars(&vec!['0']), Ok(0));
    assert_eq!(
        parse_usize_chars(&vec![]),
        Err(TmxError::InvalidNumericValue)
    );
    assert_eq!(
        parse_usize_chars(&vec!['1', 'x']),
        Err(TmxError::InvalidNumericValue)
    );
    assert_eq!(
        parse_usize_chars(&vec!['-', '1']),
        Err(TmxError::InvalidNumericValue)
    );
    assert_eq!(
        parse_usize_chars(&vec![' ', '1']),
        Err(TmxError::InvalidNumericValue)
    );
}

#[test]
fn parse_usize_rejects_overflow() {
    // twenty nines cannot fit a 64-bit usize
    let digits: Vec<char> = std::iter::repeat('9').take(20).collect();
    assert_eq!(
        parse_usize_chars(&digits),
        Err(TmxError::InvalidNumericValue)
    );
}

#[test]
fn parse_fixed_yields_thousandths() {
    assert_eq!(parse_fixed_chars(&"1.2".chars().collect()), Ok(1200));
    assert_eq!(parse_fixed_chars(&"-3.5".chars().collect()), Ok(-3500));
    assert_eq!(parse_fixed_chars(&"14".chars().collect()), Ok(14000));
    assert_eq!(parse_fixed_chars(&"0.125".chars().collect()), Ok(125));
    // digits past the third fractional place are ignored
    assert_eq!(parse_fixed_chars(&"1.2345".chars().collect()), Ok(1234));
    assert_eq!(parse_fixed_chars(&"-0.5".chars().collect()), Ok(-500));
}

#[test]
fn parse_fixed_rejects_bad_shapes() {
    for bad in ["", "1.", ".5", "-", "1e5", "1.2.3", "one", "--1"] {
        assert_eq!(
            parse_fixed_chars(&bad.chars().collect()),
            Err(TmxError::InvalidNumericValue),
            "input {:?}",
            bad
        );
    }
}

#[test]
fn trim_strips_surrounding_whitespace() {
    let trimmed = trim_chars(&" \n\t42 \r".chars().collect());
    assert_eq!(trimmed, vec!['4', '2']);
    let all_space = trim_chars(&"  \n ".chars().collect());
    assert!(all_space.is_empty());
}
