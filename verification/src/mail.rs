use vstd::prelude::*;

verus! {

/// How outgoing mail is delivered: disabled, or over SMTP.
pub enum MailMode {
    Disabled,
    Smtp {
        host: String,
        port: u16,
        username: Option<String>,
        password: Option<String>,
        use_tls: bool,
        from_address: String,
        from_name: Option<String>,
    },
}

/// The part of the panel settings that mail delivery reads.
pub struct Settings {
    pub mail_mode: MailMode,
}

/// The delivery plan derived from the settings: which transport to build,
/// with which security and credentials. Building and using the transport is
/// the caller's concern.
pub enum Transport {
    Disabled,
    Smtp {
        host: String,
        port: u16,
        tls_required: bool,
        credentials: Option<(String, String)>,
        from_address: String,
        from_name: Option<String>,
    },
}

/// The mail subsystem: a handle on the shared settings.
pub struct Mail {
    settings: std::sync::Arc<Settings>,
}

impl Mail {
    /// The mail mode the plan is derived from.
    pub closed spec fn spec_mail_mode(self) -> MailMode {
        self.settings.mail_mode
    }

    pub fn new(settings: std::sync::Arc<Settings>) -> (r: Mail)
        ensures
            r.spec_mail_mode() == settings.mail_mode,
    {
        Mail { settings }
    }

    /// Derives the delivery plan from the settings: no mail mode means no
    /// transport; SMTP requires transport security exactly when configured,
    /// and carries credentials exactly when a user name is set, with a blank
    /// password standing in for an unset one.
    pub fn get_transport(&self) -> (r: Transport)
        ensures
            match self.spec_mail_mode() {
                MailMode::Disabled => r is Disabled,
                MailMode::Smtp {
                    host,
                    port,
                    username,
                    password,
                    use_tls,
                    from_address,
                    from_name,
                } => {
                    &&& r matches Transport::Smtp {
                        host: rh,
                        port: rp,
                        tls_required,
                        credentials,
                        from_address: rfa,
                        from_name: rfn,
                    }
                    &&& rh@ == host@
                    &&& rp == port
                    &&& tls_required == use_tls
                    &&& match username {
                        Some(u) => credentials matches Some(c) && c.0@ == u@ && c.1@ == match
                            password {
                            Some(p) => p@,
                            None => Seq::<char>::empty(),
                        },
                        None => credentials is None,
                    }
                    &&& rfa@ == from_address@
                    &&& rfn.deep_view() == from_name.deep_view()
                },
            },
    {
        match &self.settings.mail_mode {
            MailMode::Disabled => Transport::Disabled,
            MailMode::Smtp { host, port, username, password, use_tls, from_address, from_name } => {
                let credentials = match username {
                    Some(u) => {
                        let pass = match password {
                            Some(p) => p.clone(),
                            None => String::new(),
                        };
                        Some((u.clone(), pass))
                    },
                    None => None,
                };
                let r = Transport::Smtp {
                    host: host.clone(),
                    port: *port,
                    tls_required: *use_tls,
                    credentials,
                    from_address: from_address.clone(),
                    from_name: match from_name {
                        Some(n) => Some(n.clone()),
                        None => None,
                    },
                };
                r
            },
        }
    }
}

} // verus!
