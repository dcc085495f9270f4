use vstd::prelude::*;

verus! {

/// An email notification.
///
/// The core only assembles the message; the surrounding program delivers it
/// through its mail transport.
pub struct Email {
    from_email_address: String,
    dest_email_address: String,
    subject: String,
    body: String,
}

impl Email {
    pub closed spec fn spec_from(&self) -> Seq<char> {
        self.from_email_address@
    }

    pub closed spec fn spec_dest(&self) -> Seq<char> {
        self.dest_email_address@
    }

    pub closed spec fn spec_subject(&self) -> Seq<char> {
        self.subject@
    }

    pub closed spec fn spec_body(&self) -> Seq<char> {
        self.body@
    }

    /// Create a new email notification to be sent to a given email address.
    pub fn new(recipient_email_address: String) -> (r: Email)
        ensures
            r.spec_from() == "no-reply@mail.myace.ai"@,
            r.spec_dest() == recipient_email_address@,
            r.spec_subject() == Seq::<char>::empty(),
            r.spec_body() == Seq::<char>::empty(),
    {
        Email {
            from_email_address: "no-reply@mail.myace.ai".to_owned(),
            dest_email_address: recipient_email_address,
            subject: String::new(),
            body: String::new(),
        }
    }

    pub fn subject(self, subject: String) -> (r: Email)
        ensures
            r.spec_subject() == subject@,
            r.spec_from() == self.spec_from(),
            r.spec_dest() == self.spec_dest(),
            r.spec_body() == self.spec_body(),
    {
        Email { subject, ..self }
    }

    pub fn body(self, body: String) -> (r: Email)
        ensures
            r.spec_body() == body@,
            r.spec_from() == self.spec_from(),
            r.spec_dest() == self.spec_dest(),
            r.spec_subject() == self.spec_subject(),
    {
        Email { body, ..self }
    }

    pub fn from_email_address(self, email: String) -> (r: Email)
        ensures
            r.spec_from() == email@,
            r.spec_dest() == self.spec_dest(),
            r.spec_subject() == self.spec_subject(),
            r.spec_body() == self.spec_body(),
    {
        Email { from_email_address: email, ..self }
    }

    /// The sender address, for the delivering transport.
    pub fn from_address(&self) -> (r: &str)
        ensures
            r@ == self.spec_from(),
    {
        self.from_email_address.as_str()
    }

    /// The recipient address, for the delivering transport.
    pub fn dest_address(&self) -> (r: &str)
        ensures
            r@ == self.spec_dest(),
    {
        self.dest_email_address.as_str()
    }

    /// The subject line, for the delivering transport.
    pub fn subject_text(&self) -> (r: &str)
        ensures
            r@ == self.spec_subject(),
    {
        self.subject.as_str()
    }

    /// The body text, for the delivering transport.
    pub fn body_text(&self) -> (r: &str)
        ensures
            r@ == self.spec_body(),
    {
        self.body.as_str()
    }
}

} // verus!
