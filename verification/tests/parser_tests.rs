use nsupdate_cloudflare::parser::NSUpdateAction;
use nsupdate_cloudflare::parser::NSUpdateCommand;
use nsupdate_cloudflare::parser::NSUpdateQueue;
use nsupdate_cloudflare::parser::ParseErrorKind;

#[test]
fn add_without_priority_then_send() {
    let mut queue = NSUpdateQueue::new();
    let remaining = queue
        .parse_text("add example.com. 300 A 203.0.113.5\nsend")
        .expect("well-formed text must parse");
    assert!(remaining.is_none());
    assert!(queue.has_send());
    assert_eq!(queue.len(), 2);
    let commands = queue.into_inner();
    match &commands[0] {
        NSUpdateCommand::Update(NSUpdateAction::Add(add)) => {
            assert_eq!(add.domain, "example.com.");
            assert_eq!(add.ttl, 300);
            assert_eq!(add.record_type, "A");
            assert_eq!(add.priority, None);
            assert_eq!(add.content, "203.0.113.5");
        }
        other => panic!("expected an Add command, got {:?}", other),
    }
    assert_eq!(commands[1], NSUpdateCommand::Send);
}

#[test]
fn add_with_priority() {
    let mut queue = NSUpdateQueue::new();
    queue
        .parse_command("add example.com. 300 MX 10 mail.example.com.")
        .expect("well-formed add must parse");
    let commands = queue.into_inner();
    assert_eq!(commands.len(), 1);
    match &commands[0] {
        NSUpdateCommand::Update(NSUpdateAction::Add(add)) => {
            assert_eq!(add.domain, "example.com.");
            assert_eq!(add.ttl, 300);
            assert_eq!(add.record_type, "MX");
            assert_eq!(add.priority, Some(10));
            assert_eq!(add.content, "mail.example.com.");
        }
        other => panic!("expected an Add command, got {:?}", other),
    }
}

#[test]
fn delete_line() {
    let mut queue = NSUpdateQueue::new();
    queue
        .parse_command("delete example.com. A")
        .expect("well-formed delete must parse");
    let commands = queue.into_inner();
    assert_eq!(commands.len(), 1);
    match &commands[0] {
        NSUpdateCommand::Update(NSUpdateAction::Delete(del)) => {
            assert_eq!(del.domain, "example.com.");
            assert_eq!(del.record_type, "A");
        }
        other => panic!("expected a Delete command, got {:?}", other),
    }
}

#[test]
fn blank_and_comment_lines_contribute_nothing() {
    let mut queue = NSUpdateQueue::new();
    queue.parse_command("").expect("a blank line is fine");
    queue.parse_command("   \t ").expect("whitespace only is fine");
    queue.parse_command("# a comment").expect("a comment is fine");
    queue.parse_command("   # indented comment").expect("an indented comment is fine");
    assert_eq!(queue.len(), 0);
    assert!(!queue.has_send());
}

#[test]
fn unrecognized_line_fails_whole_parse() {
    let mut queue = NSUpdateQueue::new();
    let err = queue
        .parse_text("add example.com. 300 A 203.0.113.5\nfrobnicate foo\nsend")
        .expect_err("an unknown directive must abort the parse");
    assert_eq!(err.kind, ParseErrorKind::Malformed);
    assert_eq!(err.line, 1);
    assert!(!queue.has_send());
}

#[test]
fn send_stops_consumption_and_returns_remainder() {
    let text = "add example.com. 300 A 203.0.113.5\nsend\ndelete example.com. A\nsend";
    let mut queue = NSUpdateQueue::new();
    let remaining = queue.parse_text(text).expect("both batches are well-formed");
    assert!(queue.has_send());
    assert_eq!(queue.len(), 2);
    let commands = queue.into_inner();
    assert_eq!(commands[1], NSUpdateCommand::Send);
    let rest = remaining.expect("text after send must remain");
    assert_eq!(rest, "delete example.com. A\nsend");

    let mut second = NSUpdateQueue::new();
    let remaining2 = second.parse_text(&rest).expect("second batch is well-formed");
    assert!(remaining2.is_none());
    assert!(second.has_send());
    assert_eq!(second.len(), 2);
}

#[test]
fn no_send_leaves_batch_open_and_nothing_remains() {
    let mut queue = NSUpdateQueue::new();
    let remaining = queue
        .parse_text("add example.com. 300 A 203.0.113.5\ndelete example.com. TXT")
        .expect("well-formed text must parse");
    assert!(remaining.is_none());
    assert!(!queue.has_send());
    assert_eq!(queue.len(), 2);
}

#[test]
fn empty_input_is_an_empty_open_batch() {
    let mut queue = NSUpdateQueue::new();
    let remaining = queue.parse_text("").expect("empty input is fine");
    assert!(remaining.is_none());
    assert!(!queue.has_send());
    assert_eq!(queue.len(), 0);
}

#[test]
fn blank_remainder_after_send_is_none() {
    let mut queue = NSUpdateQueue::new();
    let remaining = queue
        .parse_text("add example.com. 300 A 203.0.113.5\nsend\n\n   \t\n")
        .expect("well-formed text must parse");
    assert!(queue.has_send());
    assert!(remaining.is_none());
}

#[test]
fn windows_line_endings_parse_cleanly() {
    let mut queue = NSUpdateQueue::new();
    let remaining = queue
        .parse_text("add example.com. 60 A 192.0.2.7\r\nsend\r\nleftover text")
        .expect("carriage returns are blank");
    assert!(queue.has_send());
    assert_eq!(queue.len(), 2);
    assert_eq!(remaining.expect("a line remains"), "leftover text");
}

#[test]
fn non_numeric_ttl_is_rejected() {
    let mut queue = NSUpdateQueue::new();
    let err = queue
        .parse_command("add example.com. soon A 203.0.113.5")
        .expect_err("a non-numeric ttl must fail");
    assert_eq!(err.kind, ParseErrorKind::BadNumber);
    assert_eq!(err.token, 2);
    assert_eq!(queue.len(), 0);
}

#[test]
fn non_numeric_priority_is_rejected() {
    let mut queue = NSUpdateQueue::new();
    let err = queue
        .parse_command("add example.com. 300 MX high mail.example.com.")
        .expect_err("a non-numeric priority must fail");
    assert_eq!(err.kind, ParseErrorKind::BadNumber);
    assert_eq!(err.token, 4);
}

#[test]
fn oversized_ttl_is_rejected() {
    let mut queue = NSUpdateQueue::new();
    let err = queue
        .parse_command("add example.com. 99999999999999999999999999 A 203.0.113.5")
        .expect_err("a ttl beyond the machine's range must fail");
    assert_eq!(err.kind, ParseErrorKind::BadNumber);
    assert_eq!(err.token, 2);
}

#[test]
fn wrong_field_counts_are_malformed() {
    let mut queue = NSUpdateQueue::new();
    let err = queue.parse_command("add example.com. 300 A").expect_err("too few fields");
    assert_eq!(err.kind, ParseErrorKind::Malformed);
    let err = queue
        .parse_command("add example.com. 300 A 1 2 3")
        .expect_err("too many fields");
    assert_eq!(err.kind, ParseErrorKind::Malformed);
    let err = queue.parse_command("delete example.com.").expect_err("delete needs a type");
    assert_eq!(err.kind, ParseErrorKind::Malformed);
    let err = queue.parse_command("send now").expect_err("send takes no fields");
    assert_eq!(err.kind, ParseErrorKind::Malformed);
    assert_eq!(queue.len(), 0);
}

#[test]
fn content_after_type_is_not_sniffed_as_priority() {
    // Four fields after `add`: the last is content even when it is numeric.
    let mut queue = NSUpdateQueue::new();
    queue
        .parse_command("add example.com. 300 TXT 12345")
        .expect("numeric content must stay content");
    let commands = queue.into_inner();
    match &commands[0] {
        NSUpdateCommand::Update(NSUpdateAction::Add(add)) => {
            assert_eq!(add.priority, None);
            assert_eq!(add.content, "12345");
        }
        other => panic!("expected an Add command, got {:?}", other),
    }
}
