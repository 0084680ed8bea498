//! Client library for a transactional email HTTP service.
//!
//! The library holds the payload model (plain-text and HTML emails, each
//! with optional attachments), renders payloads to the service's JSON wire
//! form with verified code, and interprets the service's response — a JSON
//! object carrying an email identifier on success, raw text on failure —
//! with verified code. The HTTPS transport itself is left to the calling
//! program, which hands the library a plain status and body.

pub mod client;
pub mod error;
pub mod json;
pub mod parse;
pub mod success;
pub mod wire;

use vstd::prelude::*;

verus! {

/// The success record returned by the service: an opaque email identifier.
#[derive(Debug)]
pub struct Email {
    pub id: String,
}

impl View for Email {
    type V = Seq<char>;

    open spec fn view(&self) -> Seq<char> {
        self.id@
    }
}

/// A client of the service, holding the bearer token it authenticates with.
#[derive(Debug)]
pub struct ResendClient {
    auth_token: String,
}

impl ResendClient {
    /// The token this client authenticates with.
    pub closed spec fn token(&self) -> Seq<char> {
        self.auth_token@
    }
}

/// The mathematical model of an attachment.
pub struct AttachmentView {
    pub content: Seq<u8>,
    pub filename: Seq<char>,
}

/// An email attachment: raw byte content and a filename.
#[derive(Debug)]
pub struct Attachment {
    pub content: Vec<u8>,
    pub filename: String,
}

impl View for Attachment {
    type V = AttachmentView;

    open spec fn view(&self) -> AttachmentView {
        AttachmentView { content: self.content@, filename: self.filename@ }
    }
}

impl DeepView for Attachment {
    type V = AttachmentView;

    open spec fn deep_view(&self) -> AttachmentView {
        self@
    }
}

/// The mathematical model of a plain-text email.
pub struct MailTextView {
    pub from: Seq<char>,
    pub to: Seq<Seq<char>>,
    pub subject: Seq<char>,
    pub text: Seq<char>,
    pub attachments: Option<Seq<AttachmentView>>,
}

/// A plain-text email with optional attachments.
#[derive(Debug)]
pub struct MailText {
    pub from: String,
    pub to: Vec<String>,
    pub subject: String,
    pub text: String,
    pub attachments: Option<Vec<Attachment>>,
}

impl View for MailText {
    type V = MailTextView;

    open spec fn view(&self) -> MailTextView {
        MailTextView {
            from: self.from@,
            to: self.to.deep_view(),
            subject: self.subject@,
            text: self.text@,
            attachments: self.attachments.deep_view(),
        }
    }
}

/// The mathematical model of an HTML email.
pub struct MailHtmlView {
    pub from: Seq<char>,
    pub to: Seq<Seq<char>>,
    pub subject: Seq<char>,
    pub html: Seq<char>,
    pub attachments: Option<Seq<AttachmentView>>,
}

/// An HTML email with optional attachments.
#[derive(Debug)]
pub struct MailHtml {
    pub from: String,
    pub to: Vec<String>,
    pub subject: String,
    pub html: String,
    pub attachments: Option<Vec<Attachment>>,
}

impl View for MailHtml {
    type V = MailHtmlView;

    open spec fn view(&self) -> MailHtmlView {
        MailHtmlView {
            from: self.from@,
            to: self.to.deep_view(),
            subject: self.subject@,
            html: self.html@,
            attachments: self.attachments.deep_view(),
        }
    }
}

} // verus!
