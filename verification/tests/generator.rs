use rums::proto::naive_snake_case;
use rums::proto::ServiceDescription;
use rums::proto::ServiceMethod;
use rums::Generator;

struct Method {
    name: String,
    proto_name: String,
    input_type: String,
    output_type: String,
}

struct Service {
    name: String,
    proto_name: String,
    package: String,
    methods: Vec<Method>,
}

fn snake(name: &str) -> String {
    let mut s = String::new();
    let mut it = name.chars().peekable();
    while let Some(x) = it.next() {
        s.push(x.to_ascii_lowercase());
        if let Some(y) = it.peek() {
            if y.is_uppercase() {
                s.push('_');
            }
        }
    }
    s
}

fn expected(service: &Service, runtime: &str) -> String {
    let mut buf = String::new();
    let name = &service.name;
    let snake_name = snake(name);
    buf.push_str(&format!("\n// service: {}\npub mod {} {{\n\n", service.proto_name, snake_name));
    buf.push_str("\tuse rums::Configuration;\n\tuse rums::SendOptions;\n\n");
    buf.push_str(&format!("\tuse {}::ResponsesMap;\n\tuse {}::SendRequest;\n\n", runtime, runtime));
    buf.push_str("\tuse std::io;\n\n\tuse std::error::Error;\n\n\tuse prost::Message;\n\n");
    buf.push_str("\tuse rums::HandleError;\n\tuse rums::ServerHandler;\n\n");
    buf.push_str("\tuse rums::get_route;\n\tuse rums::add_route;\n\tuse rums::RouteHandler;\n\n");
    buf.push_str(&format!("\tpub trait {}Client<NIDT> {{\n", name));
    for m in service.methods.iter() {
        buf.push_str(&format!(
            "\t\tfn {}<'a>(&'a self, msg: &super::{}, options: SendOptions) -> io::Result<ResponsesMap<'a, super::{}, NIDT>> where NIDT: 'a;\n",
            m.name, m.input_type, m.output_type
        ));
    }
    buf.push_str("\t}\n\n");
    buf.push_str(&format!("\timpl<NIDT> {}Client<NIDT> for Configuration<NIDT> {{\n", name));
    for m in service.methods.iter() {
        buf.push_str(&format!("\n\t\t// method: {}\n", m.proto_name));
        buf.push_str(&format!(
            "\t\tfn {}<'a>(&'a self, msg: &super::{}, options: SendOptions) -> io::Result<ResponsesMap<'a, super::{}, NIDT>> where NIDT: 'a {{\n",
            m.name, m.input_type, m.output_type
        ));
        buf.push_str("\t\t\tlet mut buf = vec![];\n\t\t\tmsg.encode(&mut buf).unwrap();\n");
        buf.push_str(&format!(
            "\t\t\tlet buf = add_route(add_route(add_route(buf, \"{}\"), \"{}\"), \"{}\");\n\n",
            m.proto_name, service.proto_name, service.package
        ));
        buf.push_str("\t\t\tlet responses = self.send(buf.into_boxed_slice(), options)?;\n\n");
        buf.push_str("\t\t\tOk(ResponsesMap::new(responses))\n\t\t}\n");
    }
    buf.push_str("\n\t}\n\n");
    buf.push_str(&format!("\tpub trait {}Server {{\n", name));
    for m in service.methods.iter() {
        buf.push_str(&format!(
            "\t\tfn {}(&mut self, msg: super::{}) -> Result<super::{}, Box<dyn Error + Send>>;\n",
            m.name, m.input_type, m.output_type
        ));
    }
    buf.push_str("\t}\n\n");
    buf.push_str(&format!(
        "\tpub struct {}Handler {{\n\t    handlers: Box<dyn {}Server + Send>\n\t}}\n\n",
        name, name
    ));
    buf.push_str(&format!(
        "\timpl {}Handler {{\n\t\tpub fn new(handlers: Box<dyn {}Server + Send>) -> Self {{\n\t\t\tSelf {{\n\t\t\t\thandlers: handlers\n\t\t\t}}\n\t\t}}\n\t}}\n\n",
        name, name
    ));
    buf.push_str(&format!("\timpl ServerHandler for {}Handler {{\n", name));
    buf.push_str("\t\tfn handle(&'_ mut self, request: &[u8]) -> Result<Vec<u8>, HandleError> {\n");
    buf.push_str("\t\t\tlet (request, route) = get_route(request);\n\n\t\t\tmatch route {\n");
    for m in service.methods.iter() {
        buf.push_str(&format!("\t\t\t\t\"{}\" => {{\n", m.proto_name));
        buf.push_str(&format!("\t\t\t\t\tlet msg = super::{}::decode(request).unwrap();\n", m.input_type));
        buf.push_str(&format!("\t\t\t\t\tlet rsp = self.handlers.{}(msg);\n", m.name));
        buf.push_str("\t\t\t\t\trsp.map(|msg| {\n\t\t\t\t\t\tlet mut buf = vec![];\n\t\t\t\t\t\tmsg.encode(&mut buf).unwrap();\n\t\t\t\t\t\tbuf\n");
        buf.push_str("\t\t\t\t\t}).map_err(|e| HandleError::Failed(e.to_string()))\n\t\t\t\t},\n");
    }
    buf.push_str("\t\t\t\t&_ => todo!()\n\t\t\t}\n\t\t}\n\t}\n\n");
    buf.push_str(&format!("\tpub trait Register{}Handler {{\n", name));
    buf.push_str(&format!(
        "\t\tfn register_{}_handler(&mut self, handler: Box<dyn ServerHandler + Send>);\n\t}}\n\n",
        snake_name
    ));
    buf.push_str(&format!("\timpl Register{}Handler for RouteHandler {{\n", name));
    buf.push_str(&format!(
        "\t\tfn register_{}_handler(&mut self, handler: Box<dyn ServerHandler + Send>) {{\n",
        snake_name
    ));
    buf.push_str(&format!(
        "\t\t\tself.sub_route(\"{}\").add_route(\"{}\", handler);\n\t\t}}\n\t}}\n\n",
        service.package, service.proto_name
    ));
    buf.push_str("\n}\n");
    buf
}

fn sample() -> Service {
    Service {
        name: String::from("HelloService"),
        proto_name: String::from("HelloService"),
        package: String::from("hello"),
        methods: vec![
            Method {
                name: String::from("hello_world"),
                proto_name: String::from("HelloWorld"),
                input_type: String::from("HelloMessage"),
                output_type: String::from("HelloMessage"),
            },
            Method {
                name: String::from("goodbye_world"),
                proto_name: String::from("GoodbyeWorld"),
                input_type: String::from("ByeRequest"),
                output_type: String::from("ByeReply"),
            },
        ],
    }
}

fn describe(s: &Service) -> ServiceDescription {
    ServiceDescription {
        name: s.name.clone(),
        proto_name: s.proto_name.clone(),
        package: s.package.clone(),
        methods: s
            .methods
            .iter()
            .map(|m| ServiceMethod {
                name: m.name.clone(),
                proto_name: m.proto_name.clone(),
                input_type: m.input_type.clone(),
                output_type: m.output_type.clone(),
            })
            .collect(),
    }
}

#[test]
fn snake_case_of_camel_case_names() {
    assert_eq!(naive_snake_case("HelloWorld"), "hello_world");
    assert_eq!(naive_snake_case("Hello"), "hello");
    assert_eq!(naive_snake_case(""), "");
    assert_eq!(naive_snake_case("ABC"), "a_b_c");
    assert_eq!(naive_snake_case("already_snake"), "already_snake");
    assert_eq!(naive_snake_case("XmlHttpRequest"), "xml_http_request");
    assert_eq!(naive_snake_case("aÉb"), "a_Éb");
}

#[test]
fn generated_code_for_a_service() {
    let s = sample();
    let mut buf = String::from("// head\n");
    let mut g = Generator { runtime: String::from("rums_net") };
    g.generate(describe(&s), &mut buf);
    let mut want = String::from("// head\n");
    want.push_str(&expected(&s, "rums_net"));
    assert_eq!(buf, want);
    assert!(buf.contains("pub mod hello_service {"));
    assert!(buf.contains("\t\t\tself.sub_route(\"hello\").add_route(\"HelloService\", handler);\n"));
    assert!(buf.contains("\t\tfn hello_world<'a>(&'a self, msg: &super::HelloMessage, options: SendOptions) -> io::Result<ResponsesMap<'a, super::HelloMessage, NIDT>> where NIDT: 'a;\n"));
    assert!(buf.contains("\tuse rums_net::SendRequest;\n"));
    assert!(buf.contains("\t\t\t\t\"GoodbyeWorld\" => {\n"));
}

#[test]
fn generated_code_for_a_service_without_methods() {
    let mut s = sample();
    s.methods.clear();
    let mut buf = String::new();
    let mut g = Generator { runtime: String::from("net") };
    g.generate(describe(&s), &mut buf);
    assert_eq!(buf, expected(&s, "net"));
    assert!(buf.starts_with("\n// service: HelloService\npub mod hello_service {\n"));
    assert!(buf.ends_with("\n\n}\n"));
}

#[test]
fn generated_names_of_hello_world_service() {
    let s = Service {
        name: String::from("HelloWorld"),
        proto_name: String::from("HelloWorld"),
        package: String::from("hello"),
        methods: vec![],
    };
    let mut buf = String::new();
    let mut g = Generator { runtime: String::from("net") };
    g.generate(describe(&s), &mut buf);
    assert!(buf.starts_with("\n// service: HelloWorld\npub mod hello_world {\n"));
    assert!(buf.contains("pub trait RegisterHelloWorldHandler {"));
    assert!(buf.contains("fn register_hello_world_handler(&mut self, handler: Box<dyn ServerHandler + Send>)"));
    assert!(buf.ends_with("\n}\n"));
}

#[test]
fn snake_case_twice_is_snake_case_once() {
    for name in ["HelloWorld", "ABC", "already_snake", "X", ""] {
        let once = naive_snake_case(name);
        assert_eq!(naive_snake_case(&once), once);
    }
}
