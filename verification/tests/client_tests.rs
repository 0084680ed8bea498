use resend_rs::client::{complete_send, interpret_response, HttpResponse};
use resend_rs::error::Error;
use resend_rs::success::Success;
use resend_rs::{MailText, ResendClient};

fn sample_mail() -> MailText {
    MailText {
        from: "floris@xylex.ai".to_string(),
        to: vec!["recipient@example.com".to_string()],
        subject: "Test Email".to_string(),
        text: "Hello, this is a test email.".to_string(),
        attachments: None,
    }
}

#[test]
fn send_success_returns_identifier() {
    let outcome = Ok(HttpResponse { status: 200, body: "{\"id\":\"abc123\"}".to_string() });
    let email = complete_send(outcome).expect("a 200 with a success document is a success");
    assert_eq!(email.id, "abc123");
}

#[test]
fn send_success_ignores_unknown_members() {
    let outcome = Ok(HttpResponse {
        status: 200,
        body: "{\"id\":\"x\",\"a\":\"b\",\"meta\":{\"n\":1}}".to_string(),
    });
    let email = complete_send(outcome).expect("unknown members must be ignored");
    assert_eq!(email.id, "x");
}

#[test]
fn send_service_error_carries_body_verbatim() {
    let outcome = Ok(HttpResponse { status: 422, body: "invalid from address".to_string() });
    match complete_send(outcome) {
        Err(Error::Service(body)) => assert_eq!(body, "invalid from address"),
        other => panic!("expected a service error, got {:?}", other),
    }
}

#[test]
fn send_transport_failure_is_an_error_value() {
    let outcome = Err("connection refused".to_string());
    match complete_send(outcome) {
        Err(Error::Transport(d)) => assert_eq!(d, "connection refused"),
        other => panic!("expected a transport error, got {:?}", other),
    }
}

#[test]
fn send_decode_error_on_malformed_success_body() {
    let outcome = Ok(HttpResponse { status: 200, body: "oops".to_string() });
    match complete_send(outcome) {
        Err(Error::Decode(d)) => assert_eq!(d, "oops"),
        other => panic!("expected a decode error, got {:?}", other),
    }
}

#[test]
fn interpret_response_all_success_statuses() {
    assert!(interpret_response(204, "{\"id\":\"x\"}".to_string()).is_ok());
    assert!(interpret_response(299, "{\"id\":\"x\"}".to_string()).is_ok());
    assert!(matches!(
        interpret_response(300, "{\"id\":\"x\"}".to_string()),
        Err(Error::Service(_))
    ));
    assert!(matches!(
        interpret_response(500, "boom".to_string()),
        Err(Error::Service(_))
    ));
}

#[test]
fn bearer_header_matches_own_client() {
    let c1 = ResendClient::new("token-one".to_string());
    let c2 = ResendClient::new("token-two".to_string());
    let r1 = c1.prepare(&sample_mail());
    let r2 = c2.prepare(&sample_mail());
    assert_eq!(r1.bearer_token, "token-one");
    assert_eq!(r2.bearer_token, "token-two");
}

#[test]
fn construction_is_idempotent() {
    let c1 = ResendClient::new("same-token".to_string());
    let c2 = ResendClient::new("same-token".to_string());
    let mail = sample_mail();
    let r1 = c1.prepare(&mail);
    let r2 = c2.prepare(&mail);
    assert_eq!(r1.url, r2.url);
    assert_eq!(r1.method, r2.method);
    assert_eq!(r1.bearer_token, r2.bearer_token);
    assert_eq!(r1.content_type, r2.content_type);
    assert_eq!(r1.body, r2.body);
}

#[test]
fn prepared_request_shape() {
    let client = ResendClient::new("tok".to_string());
    let req = client.prepare(&sample_mail());
    assert_eq!(req.url, "https://api.resend.com/emails");
    assert_eq!(req.method, "POST");
    assert_eq!(req.content_type, "application/json");
    assert_eq!(
        req.body,
        "{\"from\":\"floris@xylex.ai\",\"to\":[\"recipient@example.com\"],\"subject\":\"Test Email\",\"text\":\"Hello, this is a test email.\"}"
    );
}

#[test]
fn client_stays_usable_after_a_failed_send() {
    let client = ResendClient::new("tok".to_string());
    let failed = complete_send(Err("timed out".to_string()));
    assert!(failed.is_err());
    let req = client.prepare(&sample_mail());
    assert_eq!(req.bearer_token, "tok");
    let ok = complete_send(Ok(HttpResponse { status: 200, body: "{\"id\":\"later\"}".to_string() }));
    assert_eq!(ok.unwrap().id, "later");
}

#[test]
fn notices_and_messages() {
    assert_eq!(Success::EmailSent.message(), "Email was successfully sent");
    assert_eq!(Error::Service("nope".to_string()).message(), "Resend Error: nope");
    assert_eq!(Error::Transport("down".to_string()).message(), "down");
    assert_eq!(Error::Decode("bad".to_string()).message(), "Decode Error: bad");
}
