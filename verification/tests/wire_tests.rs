use resend_rs::json::{render, JsonValue};
use resend_rs::wire::OutboundEmail;
use resend_rs::{Attachment, MailHtml, MailText};

fn sample_text_mail() -> MailText {
    MailText {
        from: "floris@xylex.ai".to_string(),
        to: vec!["recipient@example.com".to_string()],
        subject: "Test Email".to_string(),
        text: "Hello, this is a test email.".to_string(),
        attachments: None,
    }
}

#[test]
fn round_trip_text_email() {
    let mail = sample_text_mail();
    let doc = mail.to_wire();
    let back = MailText::from_wire(&doc).expect("decoding the serialized form must succeed");
    assert_eq!(back.from, mail.from);
    assert_eq!(back.to, mail.to);
    assert_eq!(back.subject, mail.subject);
    assert_eq!(back.text, mail.text);
    assert!(back.attachments.is_none());
}

#[test]
fn round_trip_text_email_with_attachments() {
    let mail = MailText {
        from: "floris@xylex.ai".to_string(),
        to: vec!["a@example.com".to_string(), "b@example.com".to_string()],
        subject: "Test Email with Attachment".to_string(),
        text: "Please find the attachment.".to_string(),
        attachments: Some(vec![Attachment {
            content: vec![0, 1, 2, 3],
            filename: "example.txt".to_string(),
        }]),
    };
    let doc = mail.to_wire();
    let back = MailText::from_wire(&doc).expect("decoding the serialized form must succeed");
    assert_eq!(back.from, mail.from);
    assert_eq!(back.to, mail.to);
    assert_eq!(back.subject, mail.subject);
    assert_eq!(back.text, mail.text);
    let atts = back.attachments.expect("attachments must be reproduced");
    assert_eq!(atts.len(), 1);
    assert_eq!(atts[0].content, vec![0, 1, 2, 3]);
    assert_eq!(atts[0].filename, "example.txt");
}

#[test]
fn round_trip_html_email() {
    let mail = MailHtml {
        from: "floris@xylex.ai".to_string(),
        to: vec!["recipient@example.com".to_string()],
        subject: "Hello World".to_string(),
        html: "<h1>Welcome</h1><p>This is an HTML email.</p>".to_string(),
        attachments: None,
    };
    let doc = mail.to_wire();
    let back = MailHtml::from_wire(&doc).expect("decoding the serialized form must succeed");
    assert_eq!(back.from, mail.from);
    assert_eq!(back.to, mail.to);
    assert_eq!(back.subject, mail.subject);
    assert_eq!(back.html, mail.html);
    assert!(back.attachments.is_none());
}

#[test]
fn attachments_key_omitted_when_absent() {
    let doc = sample_text_mail().to_wire();
    match &doc {
        JsonValue::Obj(fields) => {
            assert_eq!(fields.len(), 4);
            assert!(fields.iter().all(|(k, _)| k != "attachments"));
        }
        _ => panic!("a payload must serialize to an object"),
    }
    assert!(!render(&doc).contains("attachments"));
}

#[test]
fn attachments_key_present_when_list_empty() {
    let mut mail = sample_text_mail();
    mail.attachments = Some(vec![]);
    let rendered = render(&mail.to_wire());
    assert!(rendered.ends_with("\"attachments\":[]}"));
}

#[test]
fn empty_recipients_and_attachments_serialize() {
    let mail = MailText {
        from: "floris@xylex.ai".to_string(),
        to: vec![],
        subject: "s".to_string(),
        text: "t".to_string(),
        attachments: Some(vec![]),
    };
    let rendered = render(&mail.to_wire());
    assert_eq!(
        rendered,
        "{\"from\":\"floris@xylex.ai\",\"to\":[],\"subject\":\"s\",\"text\":\"t\",\"attachments\":[]}"
    );
}

#[test]
fn golden_render_text() {
    let rendered = render(&sample_text_mail().to_wire());
    assert_eq!(
        rendered,
        "{\"from\":\"floris@xylex.ai\",\"to\":[\"recipient@example.com\"],\"subject\":\"Test Email\",\"text\":\"Hello, this is a test email.\"}"
    );
}

#[test]
fn golden_render_with_attachment() {
    let mail = MailText {
        from: "f@x.ai".to_string(),
        to: vec!["r@e.com".to_string()],
        subject: "s".to_string(),
        text: "t".to_string(),
        attachments: Some(vec![Attachment {
            content: vec![0, 1, 255],
            filename: "a.bin".to_string(),
        }]),
    };
    let rendered = render(&mail.to_wire());
    assert_eq!(
        rendered,
        "{\"from\":\"f@x.ai\",\"to\":[\"r@e.com\"],\"subject\":\"s\",\"text\":\"t\",\"attachments\":[{\"content\":[0,1,255],\"filename\":\"a.bin\"}]}"
    );
}

#[test]
fn render_escapes_specials() {
    let mail = MailText {
        from: "f".to_string(),
        to: vec![],
        subject: "a\"b\\c".to_string(),
        text: "line1\nline2\tend\u{1}".to_string(),
        attachments: None,
    };
    let rendered = render(&mail.to_wire());
    assert_eq!(
        rendered,
        "{\"from\":\"f\",\"to\":[],\"subject\":\"a\\\"b\\\\c\",\"text\":\"line1\\nline2\\tend\\u0001\"}"
    );
}

#[test]
fn render_number_cases() {
    assert_eq!(render(&JsonValue::Num(0)), "0");
    assert_eq!(render(&JsonValue::Num(10)), "10");
    assert_eq!(render(&JsonValue::Num(u64::MAX)), "18446744073709551615");
}

#[test]
fn decode_rejects_missing_field() {
    let mut mail_doc = match sample_text_mail().to_wire() {
        JsonValue::Obj(fields) => fields,
        _ => panic!("a payload must serialize to an object"),
    };
    mail_doc.retain(|(k, _)| k != "subject");
    assert!(MailText::from_wire(&JsonValue::Obj(mail_doc)).is_none());
}

#[test]
fn decode_ignores_unknown_field() {
    let mut fields = match sample_text_mail().to_wire() {
        JsonValue::Obj(fields) => fields,
        _ => panic!("a payload must serialize to an object"),
    };
    fields.push(("tag".to_string(), JsonValue::Num(7)));
    let back = MailText::from_wire(&JsonValue::Obj(fields)).expect("unknown members are ignored");
    assert_eq!(back.from, "floris@xylex.ai");
}
