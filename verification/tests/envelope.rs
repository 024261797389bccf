use rustyknife::classes::{class_has, escapable_byte, qtext_byte, scan, ByteClass};
use rustyknife::parser::{
    domain, esmtp_params, ip_int, ldh_str, local_part, quoted_string, sub_domain, tag_no_case,
};
use rustyknife::rfc5321::{
    mail_command, quote_localpart, rcpt_command, validate_address, AddressLiteral, DomainPart,
    EsmtpParam, IpAddress, Ipv6Answer, LocalPart, Mailbox, ParseError, Path, ReversePath,
};

const DOC_V6: u128 = 0x2001_0db8_0000_0000_0000_0000_0000_0001;

fn param(name: &str, value: Option<&str>) -> EsmtpParam {
    EsmtpParam(name.to_string(), value.map(|v| v.to_string()))
}

fn plain_mailbox(local: &str, domain: &str) -> Mailbox {
    Mailbox(LocalPart::Atom(local.to_string()), DomainPart::Domain(domain.to_string()))
}

#[test]
fn empty_address_is_invalid() {
    assert_eq!(validate_address(b"", Ipv6Answer::Unknown), Ok(false));
    assert_eq!(validate_address(b"", Ipv6Answer::Invalid), Ok(false));
}

#[test]
fn plain_addresses_are_valid() {
    assert_eq!(validate_address(b"a@example.org", Ipv6Answer::Unknown), Ok(true));
    assert_eq!(validate_address(b"first.last@sub-domain.example.org", Ipv6Answer::Unknown), Ok(true));
    assert_eq!(validate_address(b"\"quoted string\"@example.org", Ipv6Answer::Unknown), Ok(true));
    assert_eq!(validate_address(b"user@[192.0.2.1]", Ipv6Answer::Unknown), Ok(true));
    assert_eq!(validate_address(b"user@[x400:cn=bob]", Ipv6Answer::Unknown), Ok(true));
}

#[test]
fn malformed_addresses_are_invalid() {
    assert_eq!(validate_address(b"a", Ipv6Answer::Unknown), Ok(false));
    assert_eq!(validate_address(b"a@", Ipv6Answer::Unknown), Ok(false));
    assert_eq!(validate_address(b"@example.org", Ipv6Answer::Unknown), Ok(false));
    assert_eq!(validate_address(b"a..b@example.org", Ipv6Answer::Unknown), Ok(false));
    assert_eq!(validate_address(b".a@example.org", Ipv6Answer::Unknown), Ok(false));
    assert_eq!(validate_address(b"a@example.org ", Ipv6Answer::Unknown), Ok(false));
    assert_eq!(validate_address(b"a@example..org", Ipv6Answer::Unknown), Ok(false));
    assert_eq!(validate_address(b"a@[192.0.2.1", Ipv6Answer::Unknown), Ok(false));
    assert_eq!(validate_address(b"a@192.0.2.1]", Ipv6Answer::Unknown), Ok(false));
    assert_eq!(validate_address(b"a@[somewhere]", Ipv6Answer::Unknown), Ok(false));
    assert_eq!(validate_address(b"\"open@example.org", Ipv6Answer::Unknown), Ok(false));
    assert_eq!(validate_address(b"\"a\\", Ipv6Answer::Unknown), Ok(false));
    assert_eq!(validate_address(&[0xff, 0x40, 0x61], Ipv6Answer::Unknown), Ok(false));
}

#[test]
fn label_ending_in_hyphen_fails_the_mailbox() {
    assert_eq!(validate_address(b"user@foo-.example.org", Ipv6Answer::Unknown), Ok(false));
    assert_eq!(validate_address(b"user@foo-.example.org", Ipv6Answer::Invalid), Ok(false));
    assert_eq!(domain(b"foo-.example.org", 0), Some(1));
    assert_eq!(
        AddressLiteral::from_str("foo-.example.org", Ipv6Answer::Unknown),
        Err(ParseError::NoMatch)
    );
    assert_eq!(
        mail_command(b"MAIL FROM:<user@foo-.example.org>", Ipv6Answer::Unknown),
        Err(ParseError::NoMatch)
    );
}

#[test]
fn ipv4_literal_parses_and_renders() {
    let lit = AddressLiteral::from_str("[192.0.2.1]", Ipv6Answer::Unknown).unwrap();
    assert_eq!(lit, AddressLiteral::IpAddr(IpAddress::V4(192, 0, 2, 1)));
    assert_eq!(lit.to_text(""), "[192.0.2.1]");
}

#[test]
fn ipv4_octets_render_without_leading_zeros() {
    let lit = AddressLiteral::IpAddr(IpAddress::V4(0, 7, 10, 99));
    assert_eq!(lit.to_text("unused"), "[0.7.10.99]");
    let lit = AddressLiteral::IpAddr(IpAddress::V4(100, 109, 200, 255));
    assert_eq!(lit.to_text("unused"), "[100.109.200.255]");
}

#[test]
fn octet_limits() {
    assert_eq!(ip_int(b"255", 0), Some((3, 255)));
    assert_eq!(ip_int(b"256", 0), None);
    assert_eq!(ip_int(b"007", 0), Some((3, 7)));
    assert_eq!(ip_int(b"1234", 0), Some((3, 123)));
    assert_eq!(ip_int(b"x", 0), None);
    assert_eq!(ip_int(b"", 0), None);
    assert_eq!(
        AddressLiteral::from_str("[001.002.003.004]", Ipv6Answer::Unknown),
        Ok(AddressLiteral::IpAddr(IpAddress::V4(1, 2, 3, 4)))
    );
    assert_eq!(
        AddressLiteral::FreeForm("999.1.1.1".to_string()).upgrade(Ipv6Answer::Unknown),
        Err(ParseError::NoMatch)
    );
    assert_eq!(
        AddressLiteral::FreeForm("1234.1.1.1".to_string()).upgrade(Ipv6Answer::Unknown),
        Err(ParseError::NoMatch)
    );
    assert_eq!(
        AddressLiteral::FreeForm("1.2.3".to_string()).upgrade(Ipv6Answer::Unknown),
        Err(ParseError::NoMatch)
    );
}

#[test]
fn ipv6_literal_asks_then_parses() {
    let text = "[IPv6:2001:db8::1]";
    let asked = AddressLiteral::from_str(text, Ipv6Answer::Unknown);
    assert_eq!(asked, Err(ParseError::Ipv6Query { start: 6, end: 17 }));
    assert_eq!(&text.as_bytes()[6..17], b"2001:db8::1");
    let lit = AddressLiteral::from_str(text, Ipv6Answer::Valid(DOC_V6)).unwrap();
    assert_eq!(lit, AddressLiteral::IpAddr(IpAddress::V6(DOC_V6)));
    assert_eq!(lit.to_text("2001:db8::1"), "[IPv6:2001:db8::1]");
}

#[test]
fn ipv6_prefix_matches_in_any_case() {
    let free = AddressLiteral::FreeForm("IPV6:2001:DB8::1".to_string());
    assert_eq!(free.upgrade(Ipv6Answer::Unknown), Err(ParseError::Ipv6Query { start: 5, end: 16 }));
    assert_eq!(
        free.upgrade(Ipv6Answer::Valid(DOC_V6)),
        Ok(AddressLiteral::IpAddr(IpAddress::V6(DOC_V6)))
    );
    let lower = AddressLiteral::FreeForm("ipv6:2001:db8::1".to_string());
    assert_eq!(
        lower.upgrade(Ipv6Answer::Valid(DOC_V6)),
        Ok(AddressLiteral::IpAddr(IpAddress::V6(DOC_V6)))
    );
}

#[test]
fn rejected_ipv6_text_falls_back_to_a_tagged_literal() {
    assert_eq!(
        AddressLiteral::from_str("[IPv6:1:2]", Ipv6Answer::Invalid),
        Ok(AddressLiteral::Tagged("IPv6".to_string(), "1:2".to_string()))
    );
    assert_eq!(
        AddressLiteral::from_str("[IPv6:xyz]", Ipv6Answer::Unknown),
        Ok(AddressLiteral::Tagged("IPv6".to_string(), "xyz".to_string()))
    );
}

#[test]
fn tagged_literal_parses_and_renders() {
    let lit = AddressLiteral::from_str("[x400:cn=bob,dc=example,dc=org]", Ipv6Answer::Unknown)
        .unwrap();
    assert_eq!(
        lit,
        AddressLiteral::Tagged("x400".to_string(), "cn=bob,dc=example,dc=org".to_string())
    );
    assert_eq!(lit.to_text(""), "[x400:cn=bob,dc=example,dc=org]");
}

#[test]
fn unrecognised_bracketed_text_is_free_form() {
    let lit = AddressLiteral::from_str("[somewhere]", Ipv6Answer::Unknown).unwrap();
    assert_eq!(lit, AddressLiteral::FreeForm("somewhere".to_string()));
    assert_eq!(lit.to_text(""), "[somewhere]");
    assert_eq!(
        AddressLiteral::from_str("[]", Ipv6Answer::Unknown),
        Ok(AddressLiteral::FreeForm(String::new()))
    );
}

#[test]
fn missing_bracket_is_no_literal() {
    assert_eq!(AddressLiteral::from_str("192.0.2.1", Ipv6Answer::Unknown), Err(ParseError::NoMatch));
    assert_eq!(AddressLiteral::from_str("[192.0.2.1", Ipv6Answer::Unknown), Err(ParseError::NoMatch));
    assert_eq!(AddressLiteral::from_str("192.0.2.1]", Ipv6Answer::Unknown), Err(ParseError::NoMatch));
    assert_eq!(AddressLiteral::from_str("", Ipv6Answer::Unknown), Err(ParseError::NoMatch));
    assert_eq!(AddressLiteral::from_str("[", Ipv6Answer::Unknown), Err(ParseError::NoMatch));
}

#[test]
fn upgrade_of_free_form() {
    let valid = AddressLiteral::FreeForm("192.0.2.1".to_string());
    let invalid = AddressLiteral::FreeForm("somewhere".to_string());
    assert_eq!(
        valid.upgrade(Ipv6Answer::Unknown),
        Ok(AddressLiteral::IpAddr(IpAddress::V4(192, 0, 2, 1)))
    );
    assert_eq!(valid, AddressLiteral::FreeForm("192.0.2.1".to_string()));
    assert_eq!(invalid.upgrade(Ipv6Answer::Unknown), Err(ParseError::NoMatch));
    assert_eq!(invalid, AddressLiteral::FreeForm("somewhere".to_string()));
}

#[test]
fn upgrade_needs_the_whole_text_and_a_free_form() {
    assert_eq!(
        AddressLiteral::FreeForm("192.0.2.1x".to_string()).upgrade(Ipv6Answer::Unknown),
        Err(ParseError::NoMatch)
    );
    assert_eq!(
        AddressLiteral::FreeForm("tag:value".to_string()).upgrade(Ipv6Answer::Unknown),
        Ok(AddressLiteral::Tagged("tag".to_string(), "value".to_string()))
    );
    assert_eq!(
        AddressLiteral::FreeForm("tag-:value".to_string()).upgrade(Ipv6Answer::Unknown),
        Err(ParseError::NoMatch)
    );
    assert_eq!(
        AddressLiteral::FreeForm("tag:va[lue".to_string()).upgrade(Ipv6Answer::Unknown),
        Err(ParseError::NoMatch)
    );
    assert_eq!(
        AddressLiteral::FreeForm("\u{e9}".to_string()).upgrade(Ipv6Answer::Unknown),
        Err(ParseError::NoMatch)
    );
    assert_eq!(
        AddressLiteral::IpAddr(IpAddress::V4(192, 0, 2, 1)).upgrade(Ipv6Answer::Unknown),
        Err(ParseError::NoMatch)
    );
    assert_eq!(
        AddressLiteral::Tagged("a".to_string(), "b".to_string()).upgrade(Ipv6Answer::Unknown),
        Err(ParseError::NoMatch)
    );
}

#[test]
fn null_reverse_path_and_postmaster() {
    assert_eq!(mail_command(b"MAIL FROM:<>", Ipv6Answer::Unknown), Ok((ReversePath::Null, vec![])));
    assert_eq!(
        rcpt_command(b"RCPT TO:<postmaster>", Ipv6Answer::Unknown),
        Ok((Path::PostMaster, vec![]))
    );
    assert_eq!(
        rcpt_command(b"rcpt to:<PostMaster>", Ipv6Answer::Unknown),
        Ok((Path::PostMaster, vec![]))
    );
    assert_eq!(mail_command(b"mail FROM:<>", Ipv6Answer::Unknown), Ok((ReversePath::Null, vec![])));
    assert_eq!(rcpt_command(b"RCPT TO:<>", Ipv6Answer::Unknown), Err(ParseError::NoMatch));
    assert_eq!(mail_command(b"MAIL FROM:<postmaster>", Ipv6Answer::Unknown), Err(ParseError::NoMatch));
}

#[test]
fn mail_command_with_parameters() {
    assert_eq!(
        mail_command(b"MAIL FROM:<a@example.org> SIZE=1000 BODY=8BITMIME", Ipv6Answer::Unknown),
        Ok((
            ReversePath::Mailbox(plain_mailbox("a", "example.org")),
            vec![param("SIZE", Some("1000")), param("BODY", Some("8BITMIME"))]
        ))
    );
}

#[test]
fn parameters_keep_order_and_duplicates() {
    assert_eq!(
        rcpt_command(b"RCPT TO:<a@example.org> X=1 \t Y X=2", Ipv6Answer::Unknown),
        Ok((
            Path::Mailbox(plain_mailbox("a", "example.org")),
            vec![param("X", Some("1")), param("Y", None), param("X", Some("2"))]
        ))
    );
    assert_eq!(
        esmtp_params(b"A=b=c", 0),
        Some((3, vec![param("A", Some("b"))]))
    );
    assert_eq!(esmtp_params(b"A= B", 0), Some((1, vec![param("A", None)])));
    assert_eq!(esmtp_params(b"=A", 0), None);
}

#[test]
fn trailing_garbage_fails_a_command() {
    assert_eq!(
        mail_command(b"MAIL FROM:<a@b.com> ex!tra", Ipv6Answer::Unknown),
        Err(ParseError::NoMatch)
    );
    assert_eq!(
        mail_command(b"MAIL FROM:<a@b.com>  extra", Ipv6Answer::Unknown),
        Err(ParseError::NoMatch)
    );
    assert_eq!(mail_command(b"MAIL FROM:<a@b.com> ", Ipv6Answer::Unknown), Err(ParseError::NoMatch));
    assert_eq!(mail_command(b"MAIL FROM:<a@b.com>\r\n", Ipv6Answer::Unknown), Err(ParseError::NoMatch));
    assert_eq!(mail_command(b"MAIL FROM:<a@b.com>extra", Ipv6Answer::Unknown), Err(ParseError::NoMatch));
    assert_eq!(mail_command(b"MAIL FROM:<a@b.com> A=", Ipv6Answer::Unknown), Err(ParseError::NoMatch));
    assert_eq!(rcpt_command(b"RCPT TO:<a@b.com> a b=c ?", Ipv6Answer::Unknown), Err(ParseError::NoMatch));
}

#[test]
fn bare_keyword_is_a_parameter() {
    assert_eq!(
        mail_command(b"MAIL FROM:<a@b.com> extra", Ipv6Answer::Unknown),
        Ok((ReversePath::Mailbox(plain_mailbox("a", "b.com")), vec![param("extra", None)]))
    );
}

#[test]
fn commands_need_their_keyword() {
    assert_eq!(mail_command(b"", Ipv6Answer::Unknown), Err(ParseError::NoMatch));
    assert_eq!(mail_command(b"MAIL FROM", Ipv6Answer::Unknown), Err(ParseError::NoMatch));
    assert_eq!(mail_command(b"MAIL  FROM:<>", Ipv6Answer::Unknown), Err(ParseError::NoMatch));
    assert_eq!(mail_command(b"RCPT TO:<a@b.com>", Ipv6Answer::Unknown), Err(ParseError::NoMatch));
    assert_eq!(rcpt_command(b"MAIL FROM:<a@b.com>", Ipv6Answer::Unknown), Err(ParseError::NoMatch));
    assert_eq!(mail_command(b"MAIL FROM:a@b.com", Ipv6Answer::Unknown), Err(ParseError::NoMatch));
    assert_eq!(mail_command(b"MAIL FROM:<a@b.com", Ipv6Answer::Unknown), Err(ParseError::NoMatch));
}

#[test]
fn source_route_is_skipped() {
    assert_eq!(
        rcpt_command(b"RCPT TO:<@a.example,@b.example:user@example.org>", Ipv6Answer::Unknown),
        Ok((Path::Mailbox(plain_mailbox("user", "example.org")), vec![]))
    );
    assert_eq!(
        rcpt_command(b"RCPT TO:<@a.example,b.example:user@example.org>", Ipv6Answer::Unknown),
        Err(ParseError::NoMatch)
    );
}

#[test]
fn command_with_ipv6_literal_asks_once() {
    let input = b"MAIL FROM:<user@[IPv6:2001:db8::1]> SIZE=1";
    let asked = mail_command(input, Ipv6Answer::Unknown);
    assert_eq!(asked, Err(ParseError::Ipv6Query { start: 22, end: 33 }));
    assert_eq!(&input[22..33], b"2001:db8::1");
    assert_eq!(
        mail_command(input, Ipv6Answer::Valid(DOC_V6)),
        Ok((
            ReversePath::Mailbox(Mailbox(
                LocalPart::Atom("user".to_string()),
                DomainPart::AddressLiteral(AddressLiteral::IpAddr(IpAddress::V6(DOC_V6)))
            )),
            vec![param("SIZE", Some("1"))]
        ))
    );
    assert_eq!(
        mail_command(input, Ipv6Answer::Invalid),
        Ok((
            ReversePath::Mailbox(Mailbox(
                LocalPart::Atom("user".to_string()),
                DomainPart::AddressLiteral(AddressLiteral::Tagged(
                    "IPv6".to_string(),
                    "2001:db8::1".to_string()
                ))
            )),
            vec![param("SIZE", Some("1"))]
        ))
    );
    assert_eq!(
        validate_address(b"user@[IPv6:::1]", Ipv6Answer::Unknown),
        Err(ParseError::Ipv6Query { start: 11, end: 14 })
    );
    assert_eq!(validate_address(b"user@[IPv6:::1]", Ipv6Answer::Valid(1)), Ok(true));
    assert_eq!(validate_address(b"user@[IPv6:::1z]", Ipv6Answer::Valid(1)), Ok(false));
}

#[test]
fn quoted_local_part_round_trip() {
    let written = b"\"a\\\"b\\\\c\"";
    let decoded = "a\"b\\c";
    let parsed = local_part(written, 0);
    assert_eq!(parsed, Some((written.len(), LocalPart::Quoted(decoded.to_string()))));
    let rendered = LocalPart::Quoted(decoded.to_string()).to_text();
    assert_eq!(rendered, "\"a\\\"b\\\\c\"");
    assert_eq!(
        local_part(rendered.as_bytes(), 0),
        Some((rendered.len(), LocalPart::Quoted(decoded.to_string())))
    );
}

#[test]
fn needless_escapes_are_dropped() {
    assert_eq!(quoted_string(b"\"\\a\\ b\"", 0), Some((7, "a b".to_string())));
    let rendered = LocalPart::Quoted("a b".to_string()).to_text();
    assert_eq!(rendered, "\"a b\"");
    assert_eq!(quoted_string(rendered.as_bytes(), 0), Some((5, "a b".to_string())));
    assert_eq!(quoted_string(b"\"\"", 0), Some((2, String::new())));
    assert_eq!(quoted_string(b"\"a\\\x1f\"", 0), None);
    assert_eq!(quoted_string(b"\"a\x7f\"", 0), None);
}

#[test]
fn quote_localpart_escapes_quote_and_backslash() {
    assert_eq!(quote_localpart("a\"b\\c"), "a\\\"b\\\\c");
    assert_eq!(quote_localpart("plain text"), "plain text");
    assert_eq!(quote_localpart(""), "");
    assert_eq!(quote_localpart("\u{e9}\""), "\u{e9}\\\"");
}

#[test]
fn mailbox_renders_as_written() {
    let m = Mailbox(
        LocalPart::Quoted("john \"j\" doe".to_string()),
        DomainPart::AddressLiteral(AddressLiteral::IpAddr(IpAddress::V4(10, 0, 0, 1))),
    );
    assert_eq!(m.to_text(""), "\"john \\\"j\\\" doe\"@[10.0.0.1]");
    assert_eq!(validate_address(m.to_text("").as_bytes(), Ipv6Answer::Unknown), Ok(true));
    assert_eq!(plain_mailbox("a.b", "example.org").to_text(""), "a.b@example.org");
    assert_eq!(LocalPart::Atom("a.b".to_string()).to_text(), "a.b");
    assert_eq!(DomainPart::Domain("example.org".to_string()).to_text(""), "example.org");
    let v6 = DomainPart::AddressLiteral(AddressLiteral::IpAddr(IpAddress::V6(1)));
    assert_eq!(v6.to_text("::1"), "[IPv6:::1]");
}

#[test]
fn labels_and_runs() {
    assert_eq!(ldh_str(b"a-b", 0), Some(3));
    assert_eq!(ldh_str(b"a-b-", 0), None);
    assert_eq!(ldh_str(b"-a", 0), Some(2));
    assert_eq!(ldh_str(b"", 0), None);
    assert_eq!(sub_domain(b"-a", 0), None);
    assert_eq!(sub_domain(b"a-", 0), Some(1));
    assert_eq!(sub_domain(b"a--b.c", 0), Some(4));
    assert_eq!(domain(b"example.org.", 0), Some(11));
    assert_eq!(domain(b"a.b-c.d>", 0), Some(7));
    assert_eq!(scan(b"abc def", 0, ByteClass::Alnum), 3);
    assert_eq!(scan(b"abc def", 3, ByteClass::Alnum), 3);
    assert_eq!(scan(b" \t x", 0, ByteClass::Wsp), 3);
}

#[test]
fn class_edges() {
    for c in [b'0', b'9', b'A', b'Z', b'a', b'z'] {
        assert!(class_has(ByteClass::Alnum, c));
    }
    for c in [b'/', b':', b'@', b'[', b'`', b'{', b'-', 0x80] {
        assert!(!class_has(ByteClass::Alnum, c));
    }
    assert!(class_has(ByteClass::Ldh, b'-'));
    assert!(class_has(ByteClass::Digit, b'5') && !class_has(ByteClass::Digit, b'a'));
    for c in [b'0', b'9', b'a', b'f', b'A', b'F', b':', b'.'] {
        assert!(class_has(ByteClass::Ipv6Text, c));
    }
    assert!(!class_has(ByteClass::Ipv6Text, b'g') && !class_has(ByteClass::Ipv6Text, b'G'));
    for c in [33u8, 60, 62, 126] {
        assert!(class_has(ByteClass::EsmtpValue, c));
    }
    for c in [32u8, 61, 127, 0] {
        assert!(!class_has(ByteClass::EsmtpValue, c));
    }
    for c in [33u8, 90, 94, 126] {
        assert!(class_has(ByteClass::Dcontent, c));
    }
    for c in [32u8, 91, 92, 93, 127] {
        assert!(!class_has(ByteClass::Dcontent, c));
    }
    for c in b"!#$%&'*+-/=?^_`{|}~aZ0" {
        assert!(class_has(ByteClass::Atext, *c));
    }
    for c in b" \"(),.:;<>@[\\]\x7f" {
        assert!(!class_has(ByteClass::Atext, *c));
    }
    for c in [32u8, 33, 35, 91, 93, 126] {
        assert!(qtext_byte(c));
    }
    for c in [31u8, 34, 92, 127] {
        assert!(!qtext_byte(c));
    }
    assert!(escapable_byte(32) && escapable_byte(126) && escapable_byte(34) && escapable_byte(92));
    assert!(!escapable_byte(31) && !escapable_byte(127));
    assert!(class_has(ByteClass::Wsp, b' ') && class_has(ByteClass::Wsp, b'\t'));
    assert!(!class_has(ByteClass::Wsp, b'\n'));
}

#[test]
fn tags_fold_letters_only() {
    assert!(tag_no_case(b"IpV6:1", 0, "ipv6:"));
    assert!(tag_no_case(b"xxipv6:", 2, "ipv6:"));
    assert!(!tag_no_case(b"ipv6", 0, "ipv6:"));
    assert!(!tag_no_case(b"ipv6;", 0, "ipv6:"));
    assert!(!tag_no_case(b"\x1bpostmaster>", 0, "<postmaster>"));
    assert!(!tag_no_case(b"Mail From\x1a", 0, "mail from:"));
}

#[test]
fn answer_is_not_read_where_nothing_is_asked() {
    for v6 in [Ipv6Answer::Unknown, Ipv6Answer::Invalid, Ipv6Answer::Valid(DOC_V6)] {
        assert_eq!(validate_address(b"a@example.org", v6), Ok(true));
        assert_eq!(validate_address(b"a@[192.0.2.1]", v6), Ok(true));
        assert_eq!(validate_address(b"a@example", v6), Ok(true));
        assert_eq!(validate_address(b"a@-example", v6), Ok(false));
        assert_eq!(
            rcpt_command(b"RCPT TO:<a@[ipv6=1]>", v6),
            Err(ParseError::NoMatch)
        );
    }
}

#[test]
fn rendered_mailbox_reads_back() {
    let boxes = [
        plain_mailbox("a.b", "example.org"),
        plain_mailbox("x", "a-b.c--d.e9"),
        Mailbox(LocalPart::Quoted("a\"b\\c d".to_string()), DomainPart::Domain("h".to_string())),
        Mailbox(LocalPart::Quoted(String::new()), DomainPart::Domain("example.org".to_string())),
        Mailbox(
            LocalPart::Atom("!#$%&'*+-/=?^_`{|}~".to_string()),
            DomainPart::AddressLiteral(AddressLiteral::IpAddr(IpAddress::V4(0, 10, 100, 255))),
        ),
    ];
    for m in boxes {
        let text = format!("MAIL FROM:<{}>", m.to_text(""));
        assert_eq!(
            mail_command(text.as_bytes(), Ipv6Answer::Unknown),
            Ok((ReversePath::Mailbox(m), vec![]))
        );
    }
}
