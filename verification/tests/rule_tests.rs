use request_rules::config::ConfigValue;
use request_rules::detectors::check_numeric_host;
use request_rules::detectors::LongContentType;
use request_rules::request::Body;
use request_rules::request::Header;
use request_rules::request::Request;
use request_rules::score::body_limit;
use request_rules::score::BodyLimit;
use request_rules::score::DEFAULT_HARD_LIMIT;
use request_rules::score::DEFAULT_SOFT_LIMIT;

fn header_request(name: &str, value: &str) -> Request {
    Request {
        host: None,
        path: b"/".to_vec(),
        query: None,
        headers: vec![Header { name: name.as_bytes().to_vec(), value: value.as_bytes().to_vec() }],
        body: Body { received: true, end_of_stream: true, size: 0, content: vec![] },
    }
}

#[test]
fn test_score_content_type() {
    let test_cases = vec![
        ("application/json", 0.0),
        (
            "multipart/form-data; boundary=aaaaaaaaaaaaaaaaaaaaaaaaaaaaaaaaaaaaaaaaaaaaaaaaaaaaaaaaaaaaaaaaaaaaaa",
            0.0,
        ),
        (
            r"%{(#_='multipart/form-data').(#_memberAccess=@ognl.OgnlContext@DEFAULT_MEMBER_ACCESS).(@java.lang.Runtime@getRuntime().exec('curl www.example.com'))}",
            0.145,
        ),
        (
            r"%{(#_='multipart/form-data').(#dm=@ognl.OgnlContext@DEFAULT_MEMBER_ACCESS).(#_memberAccess?(#_memberAccess=#dm):((#container=#context['com.opensymphony.xwork2.ActionContext.container']).(#ognlUtil=#container.getInstance(@com.opensymphony.xwork2.ognl.OgnlUtil@class)).(#ognlUtil.getExcludedPackageNames().clear()).(#ognlUtil.getExcludedClasses().clear()).(#context.setMemberAccess(#dm)))).(#cmd='curl www.example.com').(#iswin=(@java.lang.System@getProperty('os.name').toLowerCase().contains('win'))).(#cmds=(#iswin?{'cmd.exe','/c',#cmd}:{'/bin/bash','-c',#cmd})).(#p=new java.lang.ProcessBuilder(#cmds)).(#p.redirectErrorStream(true)).(#process=#p.start()).(#ros=(@org.apache.struts2.ServletActionContext@getResponse().getOutputStream())).(@org.apache.commons.io.IOUtils@copy(#process.getInputStream(),#ros)).(#ros.flush())}",
            0.75,
        ),
    ];
    for (content_type, expected) in test_cases {
        let bytes = content_type.as_bytes().to_vec();
        let score = LongContentType::score_content_type(&bytes);
        assert_eq!(score as f64 / 1000.0, expected);
    }
}

#[test]
fn test_chars_above_max() {
    let test_cases = vec![
        ("application/json", 0),
        (
            "multipart/form-data; boundary=aaaaaaaaaaaaaaaaaaaaaaaaaaaaaaaaaaaaaaaaaaaaaaaaaaaaaaaaaaaaaaaaaaaaaa",
            0,
        ),
        (
            r"%{(#_='multipart/form-data').(#_memberAccess=@ognl.OgnlContext@DEFAULT_MEMBER_ACCESS).(@java.lang.Runtime@getRuntime().exec('curl www.example.com'))}",
            29,
        ),
        (
            r"%{(#_='multipart/form-data').(#dm=@ognl.OgnlContext@DEFAULT_MEMBER_ACCESS).(#_memberAccess?(#_memberAccess=#dm):((#container=#context['com.opensymphony.xwork2.ActionContext.container']).(#ognlUtil=#container.getInstance(@com.opensymphony.xwork2.ognl.OgnlUtil@class)).(#ognlUtil.getExcludedPackageNames().clear()).(#ognlUtil.getExcludedClasses().clear()).(#context.setMemberAccess(#dm)))).(#cmd='curl www.example.com').(#iswin=(@java.lang.System@getProperty('os.name').toLowerCase().contains('win'))).(#cmds=(#iswin?{'cmd.exe','/c',#cmd}:{'/bin/bash','-c',#cmd})).(#p=new java.lang.ProcessBuilder(#cmds)).(#p.redirectErrorStream(true)).(#process=#p.start()).(#ros=(@org.apache.struts2.ServletActionContext@getResponse().getOutputStream())).(@org.apache.commons.io.IOUtils@copy(#process.getInputStream(),#ros)).(#ros.flush())}",
            704,
        ),
    ];
    for (content_type, expected) in test_cases {
        let bytes = content_type.as_bytes().to_vec();
        let chars_above_max = LongContentType::chars_above_max(&bytes);
        assert_eq!(chars_above_max, expected);
    }
}

#[test]
fn test_check_numeric_host() {
    let test_cases = [
        ("www.bulwark.security", false),
        ("www.bulwark.security:80", false),
        ("www.bul-wark.security:80", false),
        ("www.bul-wark.123", false),
        ("www.bul-wark98987.security:80", false),
        ("0xwww.bul-wark98987.security:80", false),
        // IPv4
        ("127.0.0.1", true),
        ("127.0.0.1:80", true),
        ("192.168.1.1", true),
        ("192.168.1.255", true),
        ("255.255.255.255", true),
        ("0.0.0.0", true),
        ("127.1", true),
        ("192.168.1.256", true),
        ("0x8.0X8.010.8", true),
        ("0x1.0x1.0x1.0x1", true),
        // IPv6
        ("[1:2:3:4:5:6:7:8]", true),
        ("[1:2:3:4:5:6:7:8]:80", true),
        ("[1::]", true),
        ("[1:2:3:4:5:6:7::]", true),
        ("[1::8]", true),
        ("[1:2:3:4:5:6::8]", true),
        ("[1:2:3:4:5:::8]", true),
        ("[1::7:8]", true),
        ("[1:2:3:4:5::7:8]", true),
        ("[1:2:3:4:5::8]", true),
        ("[1::6:7:8]", true),
        ("[1:2:3:4::6:7:8]", true),
        ("[1:2:3:4::8]", true),
        ("[1::5:6:7:8]", true),
        ("[1:2:3::5:6:7:8]", true),
        ("[1:2:3::8]", true),
        ("[1::4:5:6:7:8]", true),
        ("[1:2::4:5:6:7:8]", true),
        ("[1:2::8]", true),
        ("[1::3:4:5:6:7:8]", true),
        ("[::2:3:4:5:6:7:8]", true),
        ("[::8]", true),
        ("[::]", true),
        ("[::]:443", true),
        // numerals
        ("2147483647", true),
        ("0", true),
        ("909090:8080", true),
        ("0x989890fa", true),
        ("0x989890fa:8080", true),
        ("0b1010101010", true),
        ("0B1010101010", true),
        ("0b1010101010:8080", true),
        ("0651626", true),
        ("0651626:8080", true),
    ];

    for (host, expected) in test_cases {
        let req = header_request("Host", host);
        let actual = check_numeric_host(&req).unwrap();
        assert_eq!(actual, expected);
    }
}

#[test]
fn test_body_limit() {
    let test_cases = [
        // This request has no body
        (None, None, 0, BodyLimit::Normal),
        // This request has a body that is exactly at the soft limit
        (None, None, DEFAULT_SOFT_LIMIT, BodyLimit::Normal),
        // This request has a body that is exactly at the hard limit
        (None, None, DEFAULT_HARD_LIMIT, BodyLimit::SoftLimit),
        // This request has a body above the upper limit
        (None, None, DEFAULT_HARD_LIMIT + 1, BodyLimit::HardLimit),
        // This request has no body
        (Some(ConfigValue::of_int(5)), Some(ConfigValue::of_int(10)), 0, BodyLimit::Normal),
        // This request has a body that is exactly at the soft limit
        (Some(ConfigValue::of_int(5)), Some(ConfigValue::of_int(10)), 5, BodyLimit::Normal),
        // This request has a body that is exactly at the hard limit
        (Some(ConfigValue::of_int(5)), Some(ConfigValue::of_int(10)), 10, BodyLimit::SoftLimit),
        // This request has a body above the upper limit
        (Some(ConfigValue::of_int(5)), Some(ConfigValue::of_int(10)), 11, BodyLimit::HardLimit),
    ];

    for (soft_limit, hard_limit, size, expected) in test_cases {
        let limit = body_limit(soft_limit.as_ref(), hard_limit.as_ref(), size);
        assert_eq!(limit, expected);
    }
}
