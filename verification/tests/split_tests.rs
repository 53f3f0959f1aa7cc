use std::io::BufRead;
use std::io::Cursor;

use hashchain::split::lines_of;
use hashchain::split::split_commas;
use hashchain::split::text_of_lines;

#[test]
fn split_commas_cuts_where_std_cuts() {
    let lines = vec![
        "",
        ",",
        ",,",
        "a",
        "a,b",
        "a,,b",
        ",a",
        "a,",
        "0,1,data,prev,hash,true",
        "é,ü,✓",
        "a, b ,c",
        "no commas at all; only semicolons",
    ];
    for line in lines {
        let expected: Vec<String> = line.split(',').map(|piece| piece.to_string()).collect();
        assert_eq!(split_commas(line), expected, "{:?}", line);
    }
}

#[test]
fn split_commas_of_empty_text_is_one_empty_piece() {
    assert_eq!(split_commas(""), vec![String::new()]);
}

#[test]
fn split_commas_keeps_empty_pieces() {
    assert_eq!(
        split_commas(",x,,"),
        vec![
            String::new(),
            "x".to_string(),
            String::new(),
            String::new()
        ]
    );
}

fn texts() -> Vec<&'static str> {
    vec![
        "",
        "\n",
        "\n\n",
        "\r\n",
        "\r",
        "\r\r",
        "\r\r\n",
        "\n\r",
        "a",
        "a\n",
        "a\r",
        "a\r\n",
        "a\nb",
        "a\nb\n",
        "a\r\nb\r\n",
        "a\r\nb\r",
        "a\rb\n",
        "a\r\rb\r\r\n\rc",
        "\ra\n",
        "one\n\ntwo\n\n\n",
        "0,1,data,prev,hash,true\n1,2,more,hash,next,false\n",
        "0,1,data,prev,hash,true\r\n1,2,more,hash,next,false",
        "é\r\nü\n✓",
    ]
}

#[test]
fn lines_of_cuts_where_a_buffered_reader_cuts() {
    for text in texts() {
        let expected: Vec<String> = Cursor::new(text.as_bytes())
            .lines()
            .map(|line| line.unwrap())
            .collect();
        assert_eq!(lines_of(text), expected, "{:?}", text);
    }
}

#[test]
fn lines_of_takes_one_return_off_before_a_break() {
    assert_eq!(lines_of("a\r\n"), vec!["a".to_string()]);
    assert_eq!(lines_of("a\r\r\n"), vec!["a\r".to_string()]);
}

#[test]
fn lines_of_keeps_a_return_at_the_very_end() {
    assert_eq!(lines_of("a\nb\r"), vec!["a".to_string(), "b\r".to_string()]);
}

#[test]
fn lines_of_has_no_line_after_the_last_break() {
    assert_eq!(lines_of("a\n"), vec!["a".to_string()]);
    assert_eq!(lines_of("a\n\n"), vec!["a".to_string(), String::new()]);
    assert!(lines_of("").is_empty());
}

#[test]
fn text_of_lines_ends_every_line_with_a_break() {
    assert_eq!(text_of_lines(&Vec::new()), "");
    assert_eq!(text_of_lines(&vec!["a".to_string()]), "a\n");
    assert_eq!(
        text_of_lines(&vec!["a".to_string(), String::new(), "b c".to_string()]),
        "a\n\nb c\n"
    );
}

#[test]
fn joined_lines_split_into_the_same_lines() {
    let lines = vec![
        "first".to_string(),
        String::new(),
        "th\rird".to_string(),
        "with, commas".to_string(),
    ];
    assert_eq!(lines_of(&text_of_lines(&lines)), lines);
}
