use vstd::prelude::*;
use vstd::string::StringExecFns;
use vstd::string::StrSliceExecFns;

verus! {

/// Whether `c` has the Unicode `Uppercase` property, as `char::is_uppercase`
/// tells it.
pub uninterp spec fn char_is_uppercase(c: char) -> bool;

/// Whether `c` is uppercase: among ASCII characters exactly `A` to `Z`;
/// for the others, what `char::is_uppercase` answers.
pub open spec fn is_upper(c: char) -> bool {
    if (c as u32) < 128 {
        'A' <= c && c <= 'Z'
    } else {
        char_is_uppercase(c)
    }
}

/// `char::is_uppercase`. Among ASCII characters exactly `A` to `Z` are
/// uppercase; of the others the contract only names the answer.
#[verifier::external_body]
fn is_uppercase(c: char) -> (r: bool)
    ensures
        r == char_is_uppercase(c),
        (c as u32) < 128 ==> (r <==> ('A' <= c && c <= 'Z')),
{
    c.is_uppercase()
}

/// `c` with an ASCII capital letter turned into its small letter.
pub open spec fn ascii_lowercase(c: char) -> char {
    if 'A' <= c && c <= 'Z' {
        ((c as u32) + 32) as char
    } else {
        c
    }
}

/// `c` with an ASCII capital letter turned into its small letter, as
/// `char::to_ascii_lowercase` does.
fn to_ascii_lowercase(c: char) -> (r: char)
    ensures
        r == ascii_lowercase(c),
{
    if 'A' <= c && c <= 'Z' {
        let v: u8 = ((c as u32) + 32) as u8;
        let r: char = v as char;
        proof {
            assert(v as u32 == (c as u32) + 32);
            vstd::utf8::char_u32_cast(r, v as u32);
        }
        r
    } else {
        c
    }
}

/// `String::push`.
#[verifier::external_body]
fn push_char(s: &mut String, c: char)
    ensures
        final(s)@ == old(s)@.push(c),
{
    s.push(c)
}

/// The snake-case form of a name: every character in ASCII lower case, and
/// an underscore after every character that an uppercase one (`is_upper`)
/// follows.
pub open spec fn snake_case(name: Seq<char>) -> Seq<char>
    decreases name.len(),
{
    if name.len() == 0 {
        Seq::<char>::empty()
    } else {
        let head = seq![ascii_lowercase(name[0])];
        let head = if name.len() > 1 && is_upper(name[1]) {
            head.push('_')
        } else {
            head
        };
        head + snake_case(name.drop_first())
    }
}

proof fn lemma_snake_case_step(name: Seq<char>, i: int)
    requires
        0 <= i < name.len(),
    ensures
        snake_case(name.skip(i)) == ({
            let head = seq![ascii_lowercase(name[i])];
            let head = if i + 1 < name.len() && is_upper(name[i + 1]) {
                head.push('_')
            } else {
                head
            };
            head
        }) + snake_case(name.skip(i + 1)),
{
    assert(name.skip(i).drop_first() =~= name.skip(i + 1));
    assert(name.skip(i)[0] == name[i]);
    if i + 1 < name.len() {
        assert(name.skip(i)[1] == name[i + 1]);
    }
}

/// Every character is ASCII and none is an ASCII capital.
pub open spec fn lower_ascii(s: Seq<char>) -> bool {
    forall|i: int| 0 <= i < s.len() ==> (s[i] as u32) < 128 && !('A' <= #[trigger] s[i] && s[i] <= 'Z')
}

/// Every character is ASCII.
pub open spec fn ascii_chars(s: Seq<char>) -> bool {
    forall|i: int| 0 <= i < s.len() ==> (#[trigger] s[i] as u32) < 128
}

proof fn lemma_ascii_lowercase(c: char)
    requires
        (c as u32) < 128,
    ensures
        (ascii_lowercase(c) as u32) < 128,
        !('A' <= ascii_lowercase(c) && ascii_lowercase(c) <= 'Z'),
        lower_ascii(seq![c]) ==> ascii_lowercase(c) == c,
{
    if 'A' <= c && c <= 'Z' {
        let v: u32 = ((c as u32) + 32) as u32;
        assert(97 <= v <= 122);
        vstd::utf8::char_u32_cast(v as char, v);
    }
    if lower_ascii(seq![c]) {
        assert(seq![c][0] == c);
    }
}

/// A name that is already in snake case (ASCII, without capitals) is its own
/// snake case.
pub proof fn lemma_snake_case_of_lower(s: Seq<char>)
    requires
        lower_ascii(s),
    ensures
        snake_case(s) == s,
    decreases s.len(),
{
    if s.len() > 0 {
        assert(lower_ascii(seq![s[0]])) by {
            assert(seq![s[0]][0] == s[0]);
        }
        lemma_ascii_lowercase(s[0]);
        assert(lower_ascii(s.drop_first())) by {
            assert forall|i: int| 0 <= i < s.drop_first().len() implies (s.drop_first()[i] as u32)
                < 128 && !('A' <= #[trigger] s.drop_first()[i] && s.drop_first()[i] <= 'Z') by {
                assert(s.drop_first()[i] == s[i + 1]);
            }
        }
        lemma_snake_case_of_lower(s.drop_first());
        if s.len() > 1 {
            assert(!is_upper(s[1]));
        }
        assert(snake_case(s) =~= s);
    }
}

/// The snake case of an ASCII name is ASCII without capitals.
pub proof fn lemma_snake_case_is_lower(s: Seq<char>)
    requires
        ascii_chars(s),
    ensures
        lower_ascii(snake_case(s)),
    decreases s.len(),
{
    if s.len() > 0 {
        lemma_ascii_lowercase(s[0]);
        assert(ascii_chars(s.drop_first())) by {
            assert forall|i: int| 0 <= i < s.drop_first().len() implies (#[trigger] s.drop_first()[i]
                as u32) < 128 by {
                assert(s.drop_first()[i] == s[i + 1]);
            }
        }
        lemma_snake_case_is_lower(s.drop_first());
        let head = if s.len() > 1 && is_upper(s[1]) {
            seq![ascii_lowercase(s[0])].push('_')
        } else {
            seq![ascii_lowercase(s[0])]
        };
        let rest = snake_case(s.drop_first());
        assert(snake_case(s) == head + rest);
        assert forall|i: int| 0 <= i < (head + rest).len() implies ((head + rest)[i] as u32) < 128
            && !('A' <= #[trigger] (head + rest)[i] && (head + rest)[i] <= 'Z') by {
            if i >= head.len() {
                assert((head + rest)[i] == rest[i - head.len()]);
            }
        }
    }
}

/// Turning an ASCII name into snake case twice gives what turning it once
/// gives.
pub proof fn lemma_snake_case_idempotent(s: Seq<char>)
    requires
        ascii_chars(s),
    ensures
        snake_case(snake_case(s)) == snake_case(s),
{
    lemma_snake_case_is_lower(s);
    lemma_snake_case_of_lower(snake_case(s));
}

/// Turns a name in camel case into snake case: `HelloWorld` becomes
/// `hello_world`.
pub fn naive_snake_case(name: &str) -> (s: String)
    ensures
        s@ == snake_case(name@),
{
    let n: usize = name.unicode_len();
    let mut s = String::new();
    let mut i: usize = 0;
    assert(name@.skip(0) =~= name@);
    while i < n
        invariant
            n == name@.len(),
            0 <= i <= n,
            snake_case(name@) =~= s@ + snake_case(name@.skip(i as int)),
        decreases n - i,
    {
        let x = name.get_char(i);
        proof { lemma_snake_case_step(name@, i as int); }
        push_char(&mut s, to_ascii_lowercase(x));
        if i + 1 < n {
            let y = name.get_char(i + 1);
            if is_uppercase(y) {
                push_char(&mut s, '_');
            }
        }
        i = i + 1;
    }
    assert(name@.skip(n as int) =~= Seq::<char>::empty());
    s
}

} // verus!
verus! {

/// A method of a service, as the code generator reads it.
pub struct ServiceMethod {
    /// The method's name in Rust style.
    pub name: String,
    /// The method's name as the `.proto` file writes it.
    pub proto_name: String,
    /// The Rust type of the request.
    pub input_type: String,
    /// The Rust type of the answer.
    pub output_type: String,
}

/// A service, as the code generator reads it.
pub struct ServiceDescription {
    /// The service's name in Rust style.
    pub name: String,
    /// The service's name as the `.proto` file writes it.
    pub proto_name: String,
    /// The package of the service.
    pub package: String,
    /// The methods, in order.
    pub methods: Vec<ServiceMethod>,
}

/// The client trait's declarations of the methods, in order.
pub open spec fn client_decls(ms: Seq<ServiceMethod>) -> Seq<char>
    decreases ms.len(),
{
    if ms.len() == 0 {
        Seq::<char>::empty()
    } else {
        client_decls(ms.drop_last()) + client_decl(ms.last())
    }
}

/// The client's implementations of the methods, in order.
pub open spec fn client_impls(
    ms: Seq<ServiceMethod>,
    service_proto_name: Seq<char>,
    package: Seq<char>,
) -> Seq<char>
    decreases ms.len(),
{
    if ms.len() == 0 {
        Seq::<char>::empty()
    } else {
        client_impls(ms.drop_last(), service_proto_name, package) + client_impl(
            ms.last(),
            service_proto_name,
            package,
        )
    }
}

/// The server trait's declarations of the methods, in order.
pub open spec fn server_decls(ms: Seq<ServiceMethod>) -> Seq<char>
    decreases ms.len(),
{
    if ms.len() == 0 {
        Seq::<char>::empty()
    } else {
        server_decls(ms.drop_last()) + server_decl(ms.last())
    }
}

/// The server handler's branches for the methods, in order.
pub open spec fn match_arms(ms: Seq<ServiceMethod>) -> Seq<char>
    decreases ms.len(),
{
    if ms.len() == 0 {
        Seq::<char>::empty()
    } else {
        match_arms(ms.drop_last()) + match_arm(ms.last())
    }
}

/// The client trait's declaration of a method.
pub open spec fn client_decl(m: ServiceMethod) -> Seq<char> {
    Seq::<char>::empty()
        + "\t\tfn "@
        + m.name@
        + "<'a>(&'a self, msg: &super::"@
        + m.input_type@
        + ", options: SendOptions) -> io::Result<ResponsesMap<'a, super::"@
        + m.output_type@
        + ", NIDT>> where NIDT: 'a;\n"@
}

fn client_decl_text(m: &ServiceMethod) -> (out: String)
    ensures
        out@ == client_decl(*m),
{
    let mut out = String::new();
    out.append("\t\tfn ");
    out.append(m.name.as_str());
    out.append("<'a>(&'a self, msg: &super::");
    out.append(m.input_type.as_str());
    out.append(", options: SendOptions) -> io::Result<ResponsesMap<'a, super::");
    out.append(m.output_type.as_str());
    out.append(", NIDT>> where NIDT: 'a;\n");
    out
}

/// The client's implementation of a method: it frames the message with the
/// method's, the service's and the package's routes, sends it with the
/// options given, and hands back the answers to decode.
pub open spec fn client_impl(
    m: ServiceMethod,
    service_proto_name: Seq<char>,
    package: Seq<char>,
) -> Seq<char> {
    Seq::<char>::empty()
        + "\n\t\t// method: "@
        + m.proto_name@
        + "\n\t\tfn "@
        + m.name@
        + "<'a>(&'a self, msg: &super::"@
        + m.input_type@
        + ", options: SendOptions) -> io::Result<ResponsesMap<'a, super::"@
        + m.output_type@
        + ", NIDT>> where NIDT: 'a {\n\t\t\tlet mut buf = vec![];\n\t\t\tmsg.encode(&mut buf).unwrap();\n\t\t\tlet buf = "@
        + framing(m.proto_name@, service_proto_name, package)
        + ";\n\n\t\t\tlet responses = self.send(buf.into_boxed_slice(), options)?;\n\n\t\t\tOk(ResponsesMap::new(responses))\n\t\t}\n"@
}

/// The expression that frames a message `buf` with a method's, a service's
/// and a package's routes, innermost first.
pub open spec fn framing(method: Seq<char>, service: Seq<char>, package: Seq<char>) -> Seq<char> {
    "add_route(add_route(add_route(buf, \""@ + method + "\"), \""@ + service + "\"), \""@ + package
        + "\")"@
}

fn framing_text(method: &str, service: &str, package: &str) -> (out: String)
    ensures
        out@ == framing(method@, service@, package@),
{
    let mut out = String::from_str("add_route(add_route(add_route(buf, \"");
    out.append(method);
    out.append("\"), \"");
    out.append(service);
    out.append("\"), \"");
    out.append(package);
    out.append("\")");
    out
}

fn client_impl_text(m: &ServiceMethod, service_proto_name: &str, package: &str) -> (out: String)
    ensures
        out@ == client_impl(*m, service_proto_name@, package@),
{
    let mut out = String::new();
    out.append("\n\t\t// method: ");
    out.append(m.proto_name.as_str());
    out.append("\n\t\tfn ");
    out.append(m.name.as_str());
    out.append("<'a>(&'a self, msg: &super::");
    out.append(m.input_type.as_str());
    out.append(", options: SendOptions) -> io::Result<ResponsesMap<'a, super::");
    out.append(m.output_type.as_str());
    out.append(", NIDT>> where NIDT: 'a {\n\t\t\tlet mut buf = vec![];\n\t\t\tmsg.encode(&mut buf).unwrap();\n\t\t\tlet buf = ");
    let frame = framing_text(m.proto_name.as_str(), service_proto_name, package);
    out.append(frame.as_str());
    out.append(";\n\n\t\t\tlet responses = self.send(buf.into_boxed_slice(), options)?;\n\n\t\t\tOk(ResponsesMap::new(responses))\n\t\t}\n");
    out
}

/// The server trait's declaration of a method.
pub open spec fn server_decl(m: ServiceMethod) -> Seq<char> {
    Seq::<char>::empty()
        + "\t\tfn "@
        + m.name@
        + "(&mut self, msg: super::"@
        + m.input_type@
        + ") -> Result<super::"@
        + m.output_type@
        + ", Box<dyn Error + Send>>;\n"@
}

fn server_decl_text(m: &ServiceMethod) -> (out: String)
    ensures
        out@ == server_decl(*m),
{
    let mut out = String::new();
    out.append("\t\tfn ");
    out.append(m.name.as_str());
    out.append("(&mut self, msg: super::");
    out.append(m.input_type.as_str());
    out.append(") -> Result<super::");
    out.append(m.output_type.as_str());
    out.append(", Box<dyn Error + Send>>;\n");
    out
}

/// The server handler's branch for a method: it decodes the request, calls
/// the method and encodes its answer, or passes on its failure.
pub open spec fn match_arm(m: ServiceMethod) -> Seq<char> {
    Seq::<char>::empty()
        + arm_pattern(m.proto_name@)
        + "\n\t\t\t\t\tlet msg = super::"@
        + m.input_type@
        + "::decode(request).unwrap();\n\t\t\t\t\tlet rsp = self.handlers."@
        + m.name@
        + "(msg);\n\t\t\t\t\trsp.map(|msg| {\n\t\t\t\t\t\tlet mut buf = vec![];\n\t\t\t\t\t\tmsg.encode(&mut buf).unwrap();\n\t\t\t\t\t\tbuf\n\t\t\t\t\t}).map_err(|e| HandleError::Failed(e.to_string()))\n\t\t\t\t},\n"@
}

/// The start of the server handler's branch for the method route `route`.
pub open spec fn arm_pattern(route: Seq<char>) -> Seq<char> {
    "\t\t\t\t\""@ + route + "\" => {"@
}

fn arm_pattern_text(route: &str) -> (out: String)
    ensures
        out@ == arm_pattern(route@),
{
    let mut out = String::from_str("\t\t\t\t\"");
    out.append(route);
    out.append("\" => {");
    out
}

fn match_arm_text(m: &ServiceMethod) -> (out: String)
    ensures
        out@ == match_arm(*m),
{
    let mut out = String::new();
    let pattern = arm_pattern_text(m.proto_name.as_str());
    out.append(pattern.as_str());
    out.append("\n\t\t\t\t\tlet msg = super::");
    out.append(m.input_type.as_str());
    out.append("::decode(request).unwrap();\n\t\t\t\t\tlet rsp = self.handlers.");
    out.append(m.name.as_str());
    out.append("(msg);\n\t\t\t\t\trsp.map(|msg| {\n\t\t\t\t\t\tlet mut buf = vec![];\n\t\t\t\t\t\tmsg.encode(&mut buf).unwrap();\n\t\t\t\t\t\tbuf\n\t\t\t\t\t}).map_err(|e| HandleError::Failed(e.to_string()))\n\t\t\t\t},\n");
    out
}

/// The code generated for a service: a module with a client trait, its
/// implementation for `Configuration` (each method sends through `runtime`'s
/// `SendRequest` and answers with a `ResponsesMap`), a server trait, a handler that
/// passes requests on to a server by their method route, and a trait to
/// register that handler with a `RouteHandler` under the package and
/// service routes.
pub open spec fn service_code(s: ServiceDescription, runtime: Seq<char>) -> Seq<char> {
    Seq::<char>::empty()
        + "\n// service: "@
        + s.proto_name@
        + "\npub mod "@
        + snake_case(s.name@)
        + " {\n\n\tuse rums::Configuration;\n\tuse rums::SendOptions;\n\n\tuse "@
        + runtime
        + "::ResponsesMap;\n\tuse "@
        + runtime
        + "::SendRequest;\n\n\tuse std::io;\n\n\tuse std::error::Error;\n\n\tuse prost::Message;\n\n\tuse rums::HandleError;\n\tuse rums::ServerHandler;\n\n\tuse rums::get_route;\n\tuse rums::add_route;\n\tuse rums::RouteHandler;\n\n\tpub trait "@
        + s.name@
        + "Client<NIDT> {\n"@
        + client_decls(s.methods@)
        + "\t}\n\n\timpl<NIDT> "@
        + s.name@
        + "Client<NIDT> for Configuration<NIDT> {\n"@
        + client_impls(s.methods@, s.proto_name@, s.package@)
        + "\n\t}\n\n\tpub trait "@
        + s.name@
        + "Server {\n"@
        + server_decls(s.methods@)
        + "\t}\n\n\tpub struct "@
        + s.name@
        + "Handler {\n\t    handlers: Box<dyn "@
        + s.name@
        + "Server + Send>\n\t}\n\n\timpl "@
        + s.name@
        + "Handler {\n\t\tpub fn new(handlers: Box<dyn "@
        + s.name@
        + "Server + Send>) -> Self {\n\t\t\tSelf {\n\t\t\t\thandlers: handlers\n\t\t\t}\n\t\t}\n\t}\n\n\timpl ServerHandler for "@
        + s.name@
        + "Handler {\n\t\tfn handle(&'_ mut self, request: &[u8]) -> Result<Vec<u8>, HandleError> {\n\t\t\tlet (request, route) = get_route(request);\n\n\t\t\tmatch route {\n"@
        + match_arms(s.methods@)
        + "\t\t\t\t&_ => todo!()\n\t\t\t}\n\t\t}\n\t}\n\n\tpub trait Register"@
        + s.name@
        + "Handler {\n\t\tfn register_"@
        + snake_case(s.name@)
        + "_handler(&mut self, handler: Box<dyn ServerHandler + Send>);\n\t}\n\n\timpl Register"@
        + s.name@
        + "Handler for RouteHandler {\n\t\tfn register_"@
        + snake_case(s.name@)
        + "_handler(&mut self, handler: Box<dyn ServerHandler + Send>) {\n\t\t\t"@
        + registration(s.package@, s.proto_name@)
        + "\n\t\t}\n\t}\n\n\n}\n"@
}

/// The statement that registers a handler under a package's sub-router and
/// a service's route.
pub open spec fn registration(package: Seq<char>, service: Seq<char>) -> Seq<char> {
    "self.sub_route(\""@ + package + "\").add_route(\""@ + service + "\", handler);"@
}

fn registration_text(package: &str, service: &str) -> (out: String)
    ensures
        out@ == registration(package@, service@),
{
    let mut out = String::from_str("self.sub_route(\"");
    out.append(package);
    out.append("\").add_route(\"");
    out.append(service);
    out.append("\", handler);");
    out
}

fn service_code_text(
    s: &ServiceDescription,
    runtime: &str,
    snake: &String,
    client_decl_lines: &String,
    client_impl_lines: &String,
    server_decl_lines: &String,
    arm_lines: &String,
) -> (out: String)
    requires
        snake@ == snake_case(s.name@),
        client_decl_lines@ == client_decls(s.methods@),
        client_impl_lines@ == client_impls(s.methods@, s.proto_name@, s.package@),
        server_decl_lines@ == server_decls(s.methods@),
        arm_lines@ == match_arms(s.methods@),
    ensures
        out@ == service_code(*s, runtime@),
{
    let mut out = String::new();
    out.append("\n// service: ");
    out.append(s.proto_name.as_str());
    out.append("\npub mod ");
    out.append(snake.as_str());
    out.append(" {\n\n\tuse rums::Configuration;\n\tuse rums::SendOptions;\n\n\tuse ");
    out.append(runtime);
    out.append("::ResponsesMap;\n\tuse ");
    out.append(runtime);
    out.append("::SendRequest;\n\n\tuse std::io;\n\n\tuse std::error::Error;\n\n\tuse prost::Message;\n\n\tuse rums::HandleError;\n\tuse rums::ServerHandler;\n\n\tuse rums::get_route;\n\tuse rums::add_route;\n\tuse rums::RouteHandler;\n\n\tpub trait ");
    out.append(s.name.as_str());
    out.append("Client<NIDT> {\n");
    out.append(client_decl_lines.as_str());
    out.append("\t}\n\n\timpl<NIDT> ");
    out.append(s.name.as_str());
    out.append("Client<NIDT> for Configuration<NIDT> {\n");
    out.append(client_impl_lines.as_str());
    out.append("\n\t}\n\n\tpub trait ");
    out.append(s.name.as_str());
    out.append("Server {\n");
    out.append(server_decl_lines.as_str());
    out.append("\t}\n\n\tpub struct ");
    out.append(s.name.as_str());
    out.append("Handler {\n\t    handlers: Box<dyn ");
    out.append(s.name.as_str());
    out.append("Server + Send>\n\t}\n\n\timpl ");
    out.append(s.name.as_str());
    out.append("Handler {\n\t\tpub fn new(handlers: Box<dyn ");
    out.append(s.name.as_str());
    out.append("Server + Send>) -> Self {\n\t\t\tSelf {\n\t\t\t\thandlers: handlers\n\t\t\t}\n\t\t}\n\t}\n\n\timpl ServerHandler for ");
    out.append(s.name.as_str());
    out.append("Handler {\n\t\tfn handle(&'_ mut self, request: &[u8]) -> Result<Vec<u8>, HandleError> {\n\t\t\tlet (request, route) = get_route(request);\n\n\t\t\tmatch route {\n");
    out.append(arm_lines.as_str());
    out.append("\t\t\t\t&_ => todo!()\n\t\t\t}\n\t\t}\n\t}\n\n\tpub trait Register");
    out.append(s.name.as_str());
    out.append("Handler {\n\t\tfn register_");
    out.append(snake.as_str());
    out.append("_handler(&mut self, handler: Box<dyn ServerHandler + Send>);\n\t}\n\n\timpl Register");
    out.append(s.name.as_str());
    out.append("Handler for RouteHandler {\n\t\tfn register_");
    out.append(snake.as_str());
    out.append("_handler(&mut self, handler: Box<dyn ServerHandler + Send>) {\n\t\t\t");
    let register = registration_text(s.package.as_str(), s.proto_name.as_str());
    out.append(register.as_str());
    out.append("\n\t\t}\n\t}\n\n\n}\n");
    out
}

fn client_decls_text(ms: &Vec<ServiceMethod>) -> (out: String)
    ensures
        out@ == client_decls(ms@),
{
    let mut out = String::new();
    let mut i: usize = 0;
    while i < ms.len()
        invariant
            0 <= i <= ms@.len(),
            out@ == client_decls(ms@.take(i as int)),
        decreases ms@.len() - i,
    {
        let piece = client_decl_text(&ms[i]);
        out.append(piece.as_str());
        assert(ms@.take(i + 1).drop_last() =~= ms@.take(i as int));
        i = i + 1;
    }
    assert(ms@.take(ms@.len() as int) =~= ms@);
    out
}

fn client_impls_text(ms: &Vec<ServiceMethod>, service_proto_name: &str, package: &str) -> (out: String)
    ensures
        out@ == client_impls(ms@, service_proto_name@, package@),
{
    let mut out = String::new();
    let mut i: usize = 0;
    while i < ms.len()
        invariant
            0 <= i <= ms@.len(),
            out@ == client_impls(ms@.take(i as int), service_proto_name@, package@),
        decreases ms@.len() - i,
    {
        let piece = client_impl_text(&ms[i], service_proto_name, package);
        out.append(piece.as_str());
        assert(ms@.take(i + 1).drop_last() =~= ms@.take(i as int));
        i = i + 1;
    }
    assert(ms@.take(ms@.len() as int) =~= ms@);
    out
}

fn server_decls_text(ms: &Vec<ServiceMethod>) -> (out: String)
    ensures
        out@ == server_decls(ms@),
{
    let mut out = String::new();
    let mut i: usize = 0;
    while i < ms.len()
        invariant
            0 <= i <= ms@.len(),
            out@ == server_decls(ms@.take(i as int)),
        decreases ms@.len() - i,
    {
        let piece = server_decl_text(&ms[i]);
        out.append(piece.as_str());
        assert(ms@.take(i + 1).drop_last() =~= ms@.take(i as int));
        i = i + 1;
    }
    assert(ms@.take(ms@.len() as int) =~= ms@);
    out
}

fn match_arms_text(ms: &Vec<ServiceMethod>) -> (out: String)
    ensures
        out@ == match_arms(ms@),
{
    let mut out = String::new();
    let mut i: usize = 0;
    while i < ms.len()
        invariant
            0 <= i <= ms@.len(),
            out@ == match_arms(ms@.take(i as int)),
        decreases ms@.len() - i,
    {
        let piece = match_arm_text(&ms[i]);
        out.append(piece.as_str());
        assert(ms@.take(i + 1).drop_last() =~= ms@.take(i as int));
        i = i + 1;
    }
    assert(ms@.take(ms@.len() as int) =~= ms@);
    out
}

/// Generates the client and server code of protobuf services for this
/// library. `runtime` is the path of the crate that sends requests and polls
/// for their answers (`SendRequest`, `ResponsesMap`).
pub struct Generator {
    pub runtime: String,
}

impl Generator {
    /// Appends the code generated for `service` to `buf` (see `service_code`).
    pub fn generate(&mut self, service: ServiceDescription, buf: &mut String)
        ensures
            final(buf)@ == old(buf)@ + service_code(service, old(self).runtime@),
            *final(self) == *old(self),
    {
        let snake = naive_snake_case(service.name.as_str());
        let client_decl_lines = client_decls_text(&service.methods);
        let client_impl_lines = client_impls_text(
            &service.methods,
            service.proto_name.as_str(),
            service.package.as_str(),
        );
        let server_decl_lines = server_decls_text(&service.methods);
        let arm_lines = match_arms_text(&service.methods);
        let text = service_code_text(
            &service,
            self.runtime.as_str(),
            &snake,
            &client_decl_lines,
            &client_impl_lines,
            &server_decl_lines,
            &arm_lines,
        );
        buf.append(text.as_str());
    }
}

} // verus!


verus! {

/// `needle` occurs in `text`, as a contiguous piece of it.
pub open spec fn occurs_in(needle: Seq<char>, text: Seq<char>) -> bool {
    exists|before: Seq<char>, after: Seq<char>| text == before + needle + after
}

/// A text occurs in itself.
pub proof fn lemma_occurs_in_self(needle: Seq<char>)
    ensures
        occurs_in(needle, needle),
{
    let before = Seq::<char>::empty();
    let after = Seq::<char>::empty();
    assert(needle =~= before + needle + after);
}

/// What occurs in a text occurs in that text with more after it.
pub broadcast proof fn lemma_occurs_in_left(needle: Seq<char>, a: Seq<char>, b: Seq<char>)
    requires
        occurs_in(needle, a),
    ensures
        #[trigger] occurs_in(needle, a + b),
{
    let (before, after) = choose|before: Seq<char>, after: Seq<char>| a == before + needle + after;
    assert(a + b =~= before + needle + (after + b));
}

/// What occurs in a text occurs in that text with more before it.
pub broadcast proof fn lemma_occurs_in_right(needle: Seq<char>, a: Seq<char>, b: Seq<char>)
    requires
        occurs_in(needle, b),
    ensures
        #[trigger] occurs_in(needle, a + b),
{
    let (before, after) = choose|before: Seq<char>, after: Seq<char>| b == before + needle + after;
    assert(a + b =~= (a + before) + needle + after);
}

/// What occurs in a piece of a text occurs in the text.
pub proof fn lemma_occurs_in_trans(needle: Seq<char>, piece: Seq<char>, text: Seq<char>)
    requires
        occurs_in(needle, piece),
        occurs_in(piece, text),
    ensures
        occurs_in(needle, text),
{
    let (b1, a1) = choose|before: Seq<char>, after: Seq<char>| piece == before + needle + after;
    let (b2, a2) = choose|before: Seq<char>, after: Seq<char>| text == before + piece + after;
    assert(text =~= (b2 + b1) + needle + (a1 + a2));
}

/// Adding a method adds its declaration to the client trait, after those of
/// the methods before it.
pub proof fn lemma_client_decls_push(ms: Seq<ServiceMethod>, m: ServiceMethod)
    ensures
        client_decls(ms.push(m)) == client_decls(ms) + client_decl(m),
{
    assert(ms.push(m).drop_last() =~= ms);
}

/// Adding a method adds its implementation to the client, after those of
/// the methods before it.
pub proof fn lemma_client_impls_push(
    ms: Seq<ServiceMethod>,
    m: ServiceMethod,
    service_proto_name: Seq<char>,
    package: Seq<char>,
)
    ensures
        client_impls(ms.push(m), service_proto_name, package) == client_impls(
            ms,
            service_proto_name,
            package,
        ) + client_impl(m, service_proto_name, package),
{
    assert(ms.push(m).drop_last() =~= ms);
}

/// Adding a method adds its declaration to the server trait, after those of
/// the methods before it.
pub proof fn lemma_server_decls_push(ms: Seq<ServiceMethod>, m: ServiceMethod)
    ensures
        server_decls(ms.push(m)) == server_decls(ms) + server_decl(m),
{
    assert(ms.push(m).drop_last() =~= ms);
}

/// Adding a method adds its branch to the server handler, after those of
/// the methods before it, whatever the methods' types.
pub proof fn lemma_match_arms_push(ms: Seq<ServiceMethod>, m: ServiceMethod)
    ensures
        match_arms(ms.push(m)) == match_arms(ms) + match_arm(m),
{
    assert(ms.push(m).drop_last() =~= ms);
}

proof fn lemma_client_impl_in_client_impls(
    ms: Seq<ServiceMethod>,
    k: int,
    service_proto_name: Seq<char>,
    package: Seq<char>,
)
    requires
        0 <= k < ms.len(),
    ensures
        occurs_in(
            client_impl(ms[k], service_proto_name, package),
            client_impls(ms, service_proto_name, package),
        ),
    decreases ms.len(),
{
    let piece = client_impl(ms[k], service_proto_name, package);
    lemma_occurs_in_self(piece);
    if k == ms.len() - 1 {
        lemma_occurs_in_right(piece, client_impls(ms.drop_last(), service_proto_name, package), piece);
    } else {
        assert(ms.drop_last()[k] == ms[k]);
        lemma_client_impl_in_client_impls(ms.drop_last(), k, service_proto_name, package);
        lemma_occurs_in_left(
            piece,
            client_impls(ms.drop_last(), service_proto_name, package),
            client_impl(ms.last(), service_proto_name, package),
        );
    }
}

proof fn lemma_match_arm_in_match_arms(ms: Seq<ServiceMethod>, k: int)
    requires
        0 <= k < ms.len(),
    ensures
        occurs_in(match_arm(ms[k]), match_arms(ms)),
    decreases ms.len(),
{
    let piece = match_arm(ms[k]);
    lemma_occurs_in_self(piece);
    if k == ms.len() - 1 {
        lemma_occurs_in_right(piece, match_arms(ms.drop_last()), piece);
    } else {
        assert(ms.drop_last()[k] == ms[k]);
        lemma_match_arm_in_match_arms(ms.drop_last(), k);
        lemma_occurs_in_left(piece, match_arms(ms.drop_last()), match_arm(ms.last()));
    }
}

/// A client method frames its message with three routes, innermost first:
/// the method's, the service's and the package's, whatever they are (the
/// empty package too).
pub proof fn lemma_client_frames_with_three_routes(
    m: ServiceMethod,
    service_proto_name: Seq<char>,
    package: Seq<char>,
)
    ensures
        occurs_in(
            "add_route(add_route(add_route(buf, \""@ + m.proto_name@ + "\"), \""@
                + service_proto_name + "\"), \""@ + package + "\")"@,
            client_impl(m, service_proto_name, package),
        ),
{
    broadcast use lemma_occurs_in_left, lemma_occurs_in_right;

    lemma_occurs_in_self(framing(m.proto_name@, service_proto_name, package));
}

/// The server handler has a branch for every method of the service, under
/// the method's route.
pub proof fn lemma_every_method_has_a_branch(s: ServiceDescription, runtime: Seq<char>, k: int)
    requires
        0 <= k < s.methods@.len(),
    ensures
        occurs_in("\t\t\t\t\""@ + s.methods@[k].proto_name@ + "\" => {"@, service_code(s, runtime)),
{
    broadcast use lemma_occurs_in_left, lemma_occurs_in_right;

    let pattern = arm_pattern(s.methods@[k].proto_name@);
    lemma_occurs_in_self(pattern);
    assert(occurs_in(pattern, match_arm(s.methods@[k])));
    lemma_match_arm_in_match_arms(s.methods@, k);
    lemma_occurs_in_trans(pattern, match_arm(s.methods@[k]), match_arms(s.methods@));
    assert(occurs_in(pattern, service_code(s, runtime)));
}

/// Every client method of the service frames its requests with the
/// method's route, the service's proto name and the package.
pub proof fn lemma_client_routes(s: ServiceDescription, runtime: Seq<char>, k: int)
    requires
        0 <= k < s.methods@.len(),
    ensures
        occurs_in(
            "add_route(add_route(add_route(buf, \""@ + s.methods@[k].proto_name@ + "\"), \""@
                + s.proto_name@ + "\"), \""@ + s.package@ + "\")"@,
            service_code(s, runtime),
        ),
{
    broadcast use lemma_occurs_in_left, lemma_occurs_in_right;

    let m = s.methods@[k];
    let frame = framing(m.proto_name@, s.proto_name@, s.package@);
    lemma_client_frames_with_three_routes(m, s.proto_name@, s.package@);
    lemma_client_impl_in_client_impls(s.methods@, k, s.proto_name@, s.package@);
    lemma_occurs_in_trans(
        frame,
        client_impl(m, s.proto_name@, s.package@),
        client_impls(s.methods@, s.proto_name@, s.package@),
    );
    assert(occurs_in(frame, service_code(s, runtime)));
}

/// The generated registration puts the service's handler under the package's
/// sub-router and the service's proto name: the routes that the generated
/// client frames its requests with (`lemma_client_routes`).
pub proof fn lemma_registered_under_client_routes(s: ServiceDescription, runtime: Seq<char>)
    ensures
        occurs_in(
            "self.sub_route(\""@ + s.package@ + "\").add_route(\""@ + s.proto_name@
                + "\", handler);"@,
            service_code(s, runtime),
        ),
{
    broadcast use lemma_occurs_in_left, lemma_occurs_in_right;

    lemma_occurs_in_self(registration(s.package@, s.proto_name@));
    assert(occurs_in(registration(s.package@, s.proto_name@), service_code(s, runtime)));
}

} // verus!
