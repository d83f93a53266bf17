use pulsar::answer::{
    chunk_answer, completion_answer, error_answer, last_answer, models_answer, Delta, Out,
};
use pulsar::args::{
    cli_args, parse_ids, prompt_ids, serve_args, take_pick, ArgError, Pick, PromptError,
};
use pulsar::bytemap::gpt2_byte_to_char;
use pulsar::chat::ChatMarkers;
use pulsar::gguf::{Gguf, MetaValue};
use pulsar::http::{
    event, json_response, parse_header_line, parse_request_line, route, HeaderLine, Route,
};
use pulsar::json::{content_text, Json, Node};
use pulsar::messages::encode_messages;
use pulsar::parse::{assemble, read_json, Kind};
use pulsar::reply::{
    call_id, chat_id, chat_params, finish_reason, plan_reuse, prompt_fits, remember, reuse_enabled,
    too_long, Reuse, Streamer,
};
use pulsar::request::{pick_request, read_request, BodyError};
use pulsar::tokenizer::Tokenizer;
use pulsar::toolcall::{extract_tool_calls, find_blocks, parse_block, pick_members, read_call, split_calls};

/// Whether `j` holds what `v` does, all the way down.
fn holds(j: &Json, v: &serde_json::Value) -> bool {
    let parts = match (&j.node, v) {
        (Node::Null, serde_json::Value::Null) => true,
        (Node::Bool(a), serde_json::Value::Bool(b)) => a == b,
        (Node::Number(a), serde_json::Value::Number(b)) => *a == b.as_u64(),
        (Node::Text(a), serde_json::Value::String(b)) => a == b,
        (Node::List(a), serde_json::Value::Array(b)) => {
            a.len() == b.len() && a.iter().zip(b).all(|(x, y)| holds(x, y))
        }
        (Node::Members(a), serde_json::Value::Object(b)) => {
            a.len() == b.len()
                && a.iter().zip(b).all(|((k, x), (l, y))| k == l && holds(x, y))
        }
        _ => false,
    };
    parts && j.text == v.to_string()
}

fn parse(s: &str) -> Json {
    read_json(s.as_bytes()).unwrap()
}

#[test]
fn json_is_read_with_all_its_parts() {
    for text in [
        "null",
        " true ",
        "18446744073709551615",
        "-3",
        "1e3",
        "0.1",
        "\"a\\u00e9\\n\"",
        "[]",
        "{}",
        "[1, [2, {\"k\": [null]}], \"x\"]",
        "{\"$serde_json::private::RawValue\": \"[1]\"}",
        "{\"$serde_json::private::Number\": \"7\"}",
        "[0.1234567890123456789, 123456789012345678901234567890, 1e-7]",
        "{\"b\": 1, \"a\": {\"z\": \"\u{4e00}\", \"y\": [ ] }, \"b\": 2.5}",
        "{\"temperature\": 0.7, \"messages\": [{\"role\": \"user\", \"content\": \"hi\"}]}",
    ] {
        let v: serde_json::Value = serde_json::from_str(text).unwrap();
        assert!(holds(&parse(text), &v), "{text}");
    }
    let odd = parse("{\"$serde_json::private::RawValue\": \"[1]\"}");
    assert!(matches!(&odd.node, Node::Members(m) if m.len() == 1));
    // of two members with one name the last counts, and names are in order
    assert_eq!(parse("{\"b\": 1, \"a\": 0, \"b\": 2}").text, "{\"a\":0,\"b\":2}");
    assert_eq!(parse("{\"b\": 1, \"b\": 2}").get_number("b"), Some(2));
    for text in ["", "[1,]", "{\"a\" 1}", "nul", "1 2", "\"\\ud800\"", "1e999"] {
        assert!(read_json(text.as_bytes()).is_none(), "{text}");
    }
    assert!(read_json(b"\"\xff\"").is_none());
    let deep = "[".repeat(200) + &"]".repeat(200);
    assert!(read_json(deep.as_bytes()).is_none());
    let deep = "[".repeat(100) + &"]".repeat(100);
    assert!(read_json(deep.as_bytes()).is_some());
}

#[test]
fn members_are_read_by_kind() {
    let j = parse("{\"n\": 7, \"m\": -7, \"b\": true, \"t\": \"x\", \"l\": [1], \"z\": null}");
    assert_eq!((j.get_number("n"), j.get_number("m"), j.get_number("t")), (Some(7), None, None));
    assert_eq!((j.get_bool("b"), j.get_bool("n"), j.get_bool("q")), (Some(true), None, None));
    assert_eq!((j.get_str("t"), j.get_str("n")), (Some("x"), None));
    assert_eq!(j.get_list("l").map(|v| v.len()), Some(1));
    assert_eq!((j.get_text("z"), j.get_text("q"), j.get_text("l")), ("null", "null", "[1]"));
}

#[test]
fn a_chat_request_is_read_from_its_body() {
    let body = br#"{"model": "x", "messages": [{"role": "user", "content": "hi"}], "stream": true,
        "tools": [{"function": {"name": "f"}}, {}], "max_tokens": 12, "seed": 9,
        "temperature": 0.5}"#;
    let q = read_request(body).unwrap_or_else(|e| panic!("{e:?}"));
    assert_eq!((q.messages.len(), q.tools.as_ref().map(|t| t.len())), (1, Some(2)));
    assert_eq!(q.messages[0].get_str("content"), Some("hi"));
    assert_eq!(q.tools.unwrap()[0].get_text("function"), "{\"name\":\"f\"}");
    assert_eq!((q.params.max_tokens, q.params.seed, q.params.streaming), (12, 9, true));

    // what is missing, or of another kind, has its default
    let q = read_request(br#"{"messages": [], "tools": 3, "max_tokens": -1, "stream": "yes"}"#)
        .unwrap_or_else(|e| panic!("{e:?}"));
    assert!(q.messages.is_empty() && q.tools.is_none());
    assert_eq!((q.params.max_tokens, q.params.seed, q.params.streaming), (1024, 42, false));

    assert_eq!(read_request(b"{\"messages\": [").err(), Some(BodyError::NotJson));
    for body in ["{}", "[]", "{\"messages\": {}}", "{\"messages\": null}"] {
        assert_eq!(read_request(body.as_bytes()).err(), Some(BodyError::NoMessages));
    }
    assert_eq!(BodyError::NoMessages.message(), "chat request needs a messages array");
    assert_eq!(BodyError::NotJson.message(), "chat request is not JSON");
    assert!(pick_request(parse("3")).is_none());
    assert_eq!(pick_request(parse("{\"messages\": [1, 2]}")).unwrap().messages.len(), 2);
}

#[test]
fn a_block_is_read_for_its_name_and_arguments() {
    let own = |n: &str, a: &str| Some((Some(n.to_string()), a.to_string()));
    assert_eq!(
        parse_block("{\"arguments\": {\"q\": [1, 2]}, \"name\": \"f\"}"),
        own("f", "{\"q\":[1,2]}")
    );
    assert_eq!(parse_block("{\"name\": \"f\"}"), own("f", "null"));
    assert_eq!(parse_block("{\"name\": 3, \"arguments\": \"x\"}"), Some((None, "\"x\"".to_string())));
    assert_eq!(parse_block("7"), Some((None, "null".to_string())));
    assert_eq!(parse_block("{name: f}"), None);
    let text = |s: &str| Json { text: format!("{s:?}"), node: Node::Text(s.to_string()) };
    let block = assemble(
        String::new(),
        Kind::Members,
        None,
        Some(vec![("arguments".to_string(), text("a")), ("name".to_string(), text("n"))]),
    );
    assert_eq!(pick_members(&block), (Some("n".to_string()), "\"a\"".to_string()));
    let list = assemble("[]".to_string(), Kind::List, Some(vec![]), None);
    assert!(matches!(&list.node, Node::List(v) if v.is_empty()));
    let number = assemble("3".to_string(), Kind::Number(Some(3)), None, None);
    assert!(matches!(number.node, Node::Number(Some(3))) && number.text == "3");
}

fn parse_list(s: &str) -> Vec<Json> {
    match parse(s).node {
        Node::List(v) => v,
        _ => panic!("not a list"),
    }
}

fn tokenizer() -> Tokenizer {
    let text = |s: &str| MetaValue {
        unsigned: None,
        real: None,
        text: Some(s.to_string()),
        flag: None,
        items: None,
    };
    let number = |n: u64| MetaValue { unsigned: Some(n), real: None, text: None, flag: None, items: None };
    let list = |v: Vec<MetaValue>| MetaValue { unsigned: None, real: None, text: None, flag: None, items: Some(v) };
    let mut tokens: Vec<MetaValue> =
        (0..=255u8).map(|b| text(&gpt2_byte_to_char(b).to_string())).collect();
    for t in [
        "<s>",
        "</s>",
        "<\u{ff5c}hy_User:opensource\u{ff5c}>",
        "<\u{ff5c}hy_Assistant:opensource\u{ff5c}>",
        "<think:opensource>",
        "</think:opensource>",
    ] {
        tokens.push(text(t));
    }
    let mut g = Gguf::new(None, 0);
    g.set("tokenizer.ggml.tokens".to_string(), list(tokens));
    g.set("tokenizer.ggml.merges".to_string(), list(vec![]));
    g.set("tokenizer.ggml.bos_token_id".to_string(), number(256));
    g.set("tokenizer.ggml.eos_token_id".to_string(), number(257));
    Tokenizer::from_gguf(&g).ok().unwrap()
}

/// The context as text, with markers by name.
fn shown(t: &Tokenizer, ids: &[u32]) -> String {
    ids.iter()
        .map(|&i| match i {
            256 => "[bos]".to_string(),
            257 => "[eos]".to_string(),
            258 => "[user]".to_string(),
            259 => "[assistant]".to_string(),
            260 | 261 => String::new(),
            _ => String::from_utf8_lossy(&t.decode(&[i])).into_owned(),
        })
        .collect()
}

#[test]
fn content_is_text_or_blocks() {
    assert_eq!(content_text(&parse("\"hi\"")), "hi");
    assert_eq!(content_text(&parse("17")), "");
    let blocks = parse(
        "[{\"type\":\"text\",\"text\":\"a\"},{\"type\":\"image\"},7,\
         {\"type\":\"tool_result\",\"content\":[{\"text\":\"b\"},{\"text\":\"c\"}]},\
         {\"type\":\"tool_result\",\"content\":\"d\"},{\"type\":\"tool_result\"}]",
    );
    assert_eq!(content_text(&blocks), "abcd");
}

#[test]
fn messages_become_turns() {
    let t = tokenizer();
    let m = ChatMarkers::resolve(&t).ok().unwrap();
    let messages = parse_list(
        "[{\"role\":\"system\",\"content\":\"S\"},{\"role\":\"user\",\"content\":\"U\"},\
         {\"role\":\"assistant\",\"content\":\"A\",\"tool_calls\":[{\"function\":{\"name\":\"f\",\
         \"arguments\":\"{}\"}}]},{\"role\":\"tool\",\"tool_call_id\":\"c1\",\"content\":\"R\"},\
         {\"role\":\"narrator\",\"content\":\"N\"}]",
    );
    let ids = encode_messages(&t, &m, &messages, None);
    assert_eq!(
        shown(&t, &ids),
        "[bos]S[user]U[assistant]A\n<tool_call>\n{\"name\": \"f\", \"arguments\": {}}\n</tool_call>[eos]\
         [user]<tool_result id=\"c1\">\nR\n</tool_result>[assistant]"
    );
}

#[test]
fn tools_are_described_once() {
    let t = tokenizer();
    let m = ChatMarkers::resolve(&t).ok().unwrap();
    let tools = parse_list("[{\"function\":{\"name\":\"a\"}},{\"function\":{\"name\":\"b\"}},{}]");
    let with_system = parse_list(
        "[{\"role\":\"system\",\"content\":\"S\"},{\"role\":\"user\",\"content\":\"U\"},\
         {\"role\":\"system\",\"content\":\"T\"}]",
    );
    let s = shown(&t, &encode_messages(&t, &m, &with_system, Some(&tools)));
    assert!(s.starts_with("[bos]S\n\n# Tools\n\nYou may call tools."));
    assert!(s.ends_with(
        "Available tools (JSON Schema):\n[{\"name\":\"a\"},{\"name\":\"b\"},null][user]UT[assistant]"
    ));
    assert!(s.contains("<tool_call>\n{\"name\": \"<tool name>\", \"arguments\": <json arguments>}\n</tool_call>\n"));
    let without = parse_list("[{\"role\":\"user\",\"content\":\"U\"},{\"role\":\"user\",\"content\":\"V\"}]");
    let s = shown(&t, &encode_messages(&t, &m, &without, Some(&tools)));
    assert!(s.starts_with("[bos]# Tools\n\n"));
    assert!(s.ends_with("null][user]U[user]V[assistant]"));
    let s = shown(&t, &encode_messages(&t, &m, &without, Some(&Vec::new())));
    assert_eq!(s, "[bos][user]U[user]V[assistant]");
}

#[test]
fn past_calls_without_parts_are_replayed_with_defaults() {
    let t = tokenizer();
    let m = ChatMarkers::resolve(&t).ok().unwrap();
    let messages = parse_list(
        "[{\"role\":\"assistant\",\"tool_calls\":[{},{\"function\":{\"name\":3,\"arguments\":{}}}]},{}]",
    );
    assert_eq!(
        shown(&t, &encode_messages(&t, &m, &messages, None)),
        "[bos][assistant]\n<tool_call>\n{\"name\": null, \"arguments\": {}}\n</tool_call>\
         \n<tool_call>\n{\"name\": 3, \"arguments\": {}}\n</tool_call>[eos][assistant]"
    );
}

#[test]
fn calls_are_cut_out_of_the_text() {
    let (text, calls) = extract_tool_calls(
        "Let me see.\n<tool_call>\n{\"name\": \"ls\", \"arguments\": {\"dir\": \"/\", \"n\": 1.50}}\n</tool_call> and\
         <tool_call>{\"arguments\":null,\"name\":\"pwd\"}</tool_call>  \n",
    );
    assert_eq!(text, "Let me see.\n and");
    assert_eq!(
        calls,
        vec![
            ("ls".to_string(), "{\"dir\":\"/\",\"n\":1.5}".to_string()),
            ("pwd".to_string(), "{}".to_string()),
        ]
    );
}

#[test]
fn blocks_that_are_no_calls_stay() {
    for s in [
        "a <tool_call>{\"name\": \"x\"",
        "a <tool_call>not json</tool_call> b",
        "a <tool_call>{\"name\": 7}</tool_call> b",
        "a <tool_call>[1]</tool_call>",
        "</tool_call><tool_call>",
        "",
    ] {
        let (text, calls) = extract_tool_calls(s);
        assert_eq!(text, s);
        assert!(calls.is_empty());
    }
    let (text, calls) = extract_tool_calls("x<tool_call>{\"name\":\"n\"}</tool_call>y<tool_call>?");
    assert_eq!(text, "xy<tool_call>?");
    assert_eq!(calls, vec![("n".to_string(), "{}".to_string())]);
}

#[test]
fn splitting_goes_by_the_parse_results() {
    let s: Vec<char> = "a<tool_call>1</tool_call>b<tool_call>2</tool_call>c ".chars().collect();
    let bl = find_blocks(&s);
    assert_eq!(bl, vec![(1, 13), (26, 38)]);
    let name = |n: &str, a: &str| Some((Some(n.to_string()), a.to_string()));
    assert_eq!(read_call(&name("f", "null")), Some(("f".to_string(), "{}".to_string())));
    assert_eq!(read_call(&Some((None, "1".to_string()))), None);
    let (text, calls) = split_calls(&s, &bl, &[None, name("f", "[2]")]);
    assert_eq!(text, "a<tool_call>1</tool_call>bc");
    assert_eq!(calls, vec![("f".to_string(), "[2]".to_string())]);
}

#[test]
fn request_lines_and_headers_are_read() {
    let (m, p) = parse_request_line("POST  /v1/chat/completions HTTP/1.1\r\n");
    assert_eq!((m.as_str(), p.as_str()), ("POST", "/v1/chat/completions"));
    let (m, p) = parse_request_line("  \r\n");
    assert_eq!((m.as_str(), p.as_str()), ("", ""));
    assert_eq!(parse_header_line("Content-Length:  42 \r\n"), HeaderLine::Length(42));
    assert_eq!(parse_header_line("CONTENT-LENGTH:x"), HeaderLine::Length(0));
    assert_eq!(parse_header_line("content-length: +7"), HeaderLine::Length(7));
    assert_eq!(parse_header_line("Host: a"), HeaderLine::Other);
    assert_eq!(parse_header_line("\r\n"), HeaderLine::End);
    assert_eq!(route("GET", "/v1/models"), Route::Models);
    assert_eq!(route("POST", "/v1/chat/completions"), Route::Chat);
    assert_eq!(route("GET", "/v1/chat/completions"), Route::NotFound);
}

#[test]
fn responses_count_bytes() {
    assert_eq!(
        json_response(200, "{\"a\":\"\u{e9}\"}"),
        "HTTP/1.1 200 OK\r\ncontent-type: application/json\r\ncontent-length: 10\r\n\r\n{\"a\":\"\u{e9}\"}"
    );
    assert!(json_response(404, "{}").starts_with("HTTP/1.1 404 Error\r\n"));
    assert_eq!(event("x"), "data: x\n\n");
}

fn strings(v: &[&str]) -> Vec<String> {
    v.iter().map(|s| s.to_string()).collect()
}

#[test]
fn the_server_reads_its_command_line() {
    let a = serve_args(&strings(&["-m", "x.gguf", "--port", "80", "--ctx", "4096"])).ok().unwrap();
    assert_eq!((a.model.as_str(), a.port, a.host.as_str(), a.ctx), ("x.gguf", 80, "127.0.0.1", 4096));
    match serve_args(&strings(&["--host"])) {
        Err(ArgError::NeedsValue(o)) => assert_eq!(o, "--host"),
        _ => panic!("a value is missing"),
    }
    match serve_args(&strings(&["--port", "65536", "-x"])) {
        Err(ArgError::BadNumber(o)) => assert_eq!(o, "--port"),
        _ => panic!("no such port"),
    }
    match serve_args(&strings(&["-m", "x", "-x"])) {
        Err(ArgError::Unknown(o)) => assert_eq!(o, "-x"),
        _ => panic!("no such option"),
    }
    assert!(matches!(serve_args(&[]), Err(ArgError::MissingModel)));
}

#[test]
fn the_tool_takes_its_other_options() {
    let a = cli_args(&strings(&[
        "-m", "x", "--chat", "--system", "Be terse", "--temp", "0.7", "--top-p", "0.9", "--min-p",
        "0.05", "--seed", "18446744073709551615", "--ctx", "64",
    ]))
    .ok()
    .unwrap();
    assert!(a.chat && !a.teacher_force && a.bos);
    assert_eq!((a.system.as_deref(), a.temp.as_deref()), (Some("Be terse"), Some("0.7")));
    assert_eq!((a.top_p.as_deref(), a.min_p.as_deref()), (Some("0.9"), Some("0.05")));
    assert_eq!((a.seed, a.ctx), (Some(u64::MAX), 64));
    let a = cli_args(&strings(&[
        "--dump-logits", "out.json", "--teacher-force", "--decode-consistency", "8", "-m", "x",
    ]))
    .ok()
    .unwrap();
    assert_eq!(a.dump_logits.as_deref(), Some("out.json"));
    assert!(a.teacher_force && !a.chat);
    assert_eq!(a.decode_consistency, Some(8));
    for name in ["--system", "--temp", "--top-p", "--min-p", "--seed", "--dump-logits",
        "--decode-consistency"]
    {
        match cli_args(&strings(&["-m", "x", name])) {
            Err(ArgError::NeedsValue(o)) => assert_eq!(o, name),
            _ => panic!("{name} needs a value"),
        }
    }
    for name in ["--seed", "--decode-consistency", "--ctx", "-n"] {
        match cli_args(&strings(&["-m", "x", name, "many"])) {
            Err(ArgError::BadNumber(o)) => assert_eq!(o, name),
            _ => panic!("{name} needs a number"),
        }
    }
    match cli_args(&strings(&["-m", "x", "--temperature", "1"])) {
        Err(ArgError::Unknown(o)) => assert_eq!(o, "--temperature"),
        _ => panic!("no such option"),
    }
}

#[test]
fn the_prompt_is_ids_or_text() {
    let ids = |words: &[&str]| {
        prompt_ids(&cli_args(&strings(words)).ok().unwrap(), &tokenizer())
    };
    assert_eq!(ids(&["-m", "x", "-p", "hi"]), Ok(vec![256, 104, 105]));
    assert_eq!(ids(&["-m", "x", "-p", "hi", "--no-bos"]), Ok(vec![104, 105]));
    assert_eq!(ids(&["-m", "x", "-p", "hi", "--tokens", "7, 8"]), Ok(vec![7, 8]));
    assert_eq!(ids(&["-m", "x", "--tokens", "7;8"]), Err(PromptError::BadIds));
    assert_eq!(ids(&["-m", "x"]), Err(PromptError::Missing));
    let mut g = Gguf::new(None, 0);
    let list = |v: Vec<MetaValue>| MetaValue { unsigned: None, real: None, text: None, flag: None, items: Some(v) };
    g.set("tokenizer.ggml.tokens".to_string(), list(vec![]));
    g.set("tokenizer.ggml.merges".to_string(), list(vec![]));
    let bare = Tokenizer::from_gguf(&g).ok().unwrap();
    let a = cli_args(&strings(&["-m", "x", "-p", "hi"])).ok().unwrap();
    assert_eq!(prompt_ids(&a, &bare), Err(PromptError::NoBos));
}

#[test]
fn the_tool_reads_its_command_line() {
    let a = cli_args(&strings(&["-m", "x", "-p", "hi", "--no-bos", "-n", "3"])).ok().unwrap();
    assert_eq!((a.prompt.as_deref(), a.tokens.as_deref()), (Some("hi"), None));
    assert_eq!((a.n_predict, a.ctx, a.bos), (3, 2048, false));
    let a = cli_args(&strings(&["--tokens", "1", "-m", "x"])).ok().unwrap();
    assert_eq!((a.tokens.as_deref(), a.n_predict, a.bos), (Some("1"), 16, true));
    assert!(matches!(cli_args(&strings(&["-n", "-3"])), Err(ArgError::BadNumber(_))));
    assert!(matches!(cli_args(&strings(&["-p"])), Err(ArgError::NeedsValue(_))));
    assert!(matches!(cli_args(&strings(&["--no-bos"])), Err(ArgError::MissingModel)));
    assert!(!a.chat && !a.teacher_force && a.system.is_none() && a.seed.is_none());
    assert_eq!(parse_ids("120000, 16883,11"), Some(vec![120000, 16883, 11]));
    assert_eq!(parse_ids("7"), Some(vec![7]));
    assert_eq!(parse_ids("1,,2"), None);
    assert_eq!(parse_ids(""), None);
    assert_eq!(parse_ids("4294967296"), None);
    assert_eq!(take_pick(5, Some(5), 0, 9), Pick::Stop);
    assert_eq!(take_pick(5, None, 9, 9), Pick::Last);
    assert_eq!(take_pick(5, Some(4), 8, 9), Pick::Next);
}

#[test]
fn requests_have_defaults_and_limits() {
    let p = chat_params(None, None, None);
    assert_eq!((p.max_tokens, p.seed, p.streaming), (1024, 42, false));
    let p = chat_params(Some(5), Some(6), Some(true));
    assert_eq!((p.max_tokens, p.seed, p.streaming), (5, 6, true));
    assert!(prompt_fits(97, 100) && !prompt_fits(98, 100) && !prompt_fits(0, 2));
    assert_eq!(too_long(98, 100), "prompt exceeds context (98 tokens, ctx 100)");
    assert_eq!(finish_reason(0), "stop");
    assert_eq!(finish_reason(2), "tool_calls");
    assert_eq!(chat_id(17), "chatcmpl-17");
    assert_eq!(call_id(17, 0), "call_17_0");
}

#[test]
fn the_common_beginning_is_reused() {
    assert_eq!(plan_reuse(&[1, 2, 3], &[1, 2, 4, 5], true, false), Reuse::Keep(2));
    assert_eq!(plan_reuse(&[1, 2, 3], &[1, 2, 3, 4], true, false), Reuse::Keep(3));
    // a prompt that is all there still has its last token forwarded
    assert_eq!(plan_reuse(&[1, 2, 3], &[1, 2, 3], true, false), Reuse::Keep(2));
    assert_eq!(plan_reuse(&[1, 2, 3], &[1, 2, 3], false, false), Reuse::Keep(0));
    assert_eq!(plan_reuse(&[], &[1], true, true), Reuse::Keep(0));
    // a recurrent state is only ever extended
    assert_eq!(plan_reuse(&[1, 2, 3], &[1, 2, 3, 4], true, true), Reuse::Keep(3));
    assert_eq!(plan_reuse(&[1, 2, 3], &[1, 2, 4, 5], true, true), Reuse::Rewind(2));
    assert_eq!(plan_reuse(&[1, 2, 3], &[1, 2, 3], true, true), Reuse::Rewind(2));
    assert_eq!(remember(&[1, 2], &[3], Some(9)), vec![1, 2, 3, 9]);
    assert_eq!(remember(&[1, 2], &[], None), vec![1, 2]);
    assert!(reuse_enabled(0, false, false) && !reuse_enabled(1, false, false));
    assert!(!reuse_enabled(0, true, false) && !reuse_enabled(0, false, true));
}

fn stream(chunks: &[&[u8]]) -> (Vec<u8>, bool) {
    let mut s = Streamer::new();
    let mut sent = Vec::new();
    for c in chunks {
        sent.extend(s.push(c, false));
    }
    if let Some(b) = s.flush(false) {
        sent.extend(b);
    }
    (sent, s.tool_phase)
}

#[test]
fn text_is_streamed_up_to_a_call() {
    assert_eq!(stream(&[b"hi"]), (b"hi".to_vec(), false));
    assert_eq!(
        stream(&[b"a long enough text, ", b"in ", b"pieces"]),
        (b"a long enough text, in pieces".to_vec(), false)
    );
    // the marker may arrive in any pieces, and nothing of it is shown
    let whole = b"see here: <tool_call>{}</tool_call> done";
    for cut in 1..whole.len() {
        let (sent, tool) = stream(&[&whole[..cut], &whole[cut..]]);
        assert_eq!(sent, b"see here: ");
        assert!(tool);
    }
    let single: Vec<&[u8]> = whole.chunks(1).collect();
    assert_eq!(stream(&single), (b"see here: ".to_vec(), true));
    assert_eq!(stream(&[b"almost <tool_cal", b"l, no"]), (b"almost <tool_call, no".to_vec(), false));
}

#[test]
fn ten_bytes_are_held_back_even_inside_a_character() {
    let mut s = Streamer::new();
    assert!(s.push("0123456789\u{e9}".as_bytes(), false) == b"01");
    // the ten are bytes: four characters of three bytes each are cut inside one
    let text = "\u{4e00}\u{4e8c}\u{4e09}\u{56db}";
    let mut s = Streamer::new();
    assert_eq!(s.push(text.as_bytes(), false), &text.as_bytes()[..2]);
    assert_eq!(s.bytes, &text.as_bytes()[2..]);
    // eleven bytes held back are two invalid ones and nine more
    let mut s = Streamer::new();
    let sent = s.push(b"\xc3AAAAAAAAAAAAAA", false);
    assert!(sent.is_empty());
    assert_eq!(s.bytes.len(), 15);
    // a client that is gone gets nothing
    let mut s = Streamer::new();
    assert!(s.push(b"0123456789abcdef", true).is_empty());
    assert_eq!(s.bytes.len(), 16);
    assert!(s.flush(true).is_none());
}

fn members(o: &Out) -> &Vec<(String, Out)> {
    match o {
        Out::Members(m) => m,
        other => panic!("no map: {other:?}"),
    }
}

fn member<'a>(o: &'a Out, key: &str) -> &'a Out {
    &members(o).iter().find(|(k, _)| k == key).unwrap().1
}

fn first(o: &Out) -> &Out {
    match o {
        Out::List(v) => &v[0],
        other => panic!("no list: {other:?}"),
    }
}

fn is_text(o: &Out, s: &str) -> bool {
    matches!(o, Out::Text(t) if t == s)
}

#[test]
fn replies_have_their_members() {
    let m = models_answer("hy3");
    assert!(is_text(member(&m, "object"), "list"));
    let entry = first(member(&m, "data"));
    assert!(is_text(member(entry, "id"), "hy3") && is_text(member(entry, "owned_by"), "pulsar"));
    let e = error_answer("not found");
    assert!(is_text(member(member(&e, "error"), "message"), "not found"));

    let calls = vec![("look".to_string(), "{}".to_string())];
    let c = completion_answer("chatcmpl-7", "hy3", "hello", 7, &calls, 10, 5);
    let choice = first(member(&c, "choices"));
    assert!(is_text(member(choice, "finish_reason"), "tool_calls"));
    let call = first(member(member(choice, "message"), "tool_calls"));
    assert!(is_text(member(call, "id"), "call_7_0") && is_text(member(call, "type"), "function"));
    assert!(is_text(member(member(call, "function"), "arguments"), "{}"));
    assert!(matches!(member(member(&c, "usage"), "total_tokens"), Out::Number(15)));
    let plain = completion_answer("chatcmpl-8", "hy3", "hi", 8, &[], 1, 1);
    let message = member(first(member(&plain, "choices")), "message");
    assert_eq!(members(message).len(), 2);
    assert!(is_text(member(message, "content"), "hi"));
    assert!(is_text(member(first(member(&plain, "choices")), "finish_reason"), "stop"));
}

#[test]
fn streamed_pieces_have_their_members() {
    let role = chunk_answer("chatcmpl-1", "hy3", Delta::Role);
    assert!(is_text(member(&role, "object"), "chat.completion.chunk"));
    let choice = first(member(&role, "choices"));
    assert!(is_text(member(member(choice, "delta"), "role"), "assistant"));
    assert!(matches!(member(choice, "finish_reason"), Out::Null));
    let more = chunk_answer("chatcmpl-1", "hy3", Delta::Content("abc"));
    assert!(is_text(member(member(first(member(&more, "choices")), "delta"), "content"), "abc"));
    let d = Delta::Call { request: 3, k: 2, name: "f", args: "[]" };
    let piece = chunk_answer("chatcmpl-3", "hy3", d);
    let delta = member(first(member(&piece, "choices")), "delta");
    let call = first(member(delta, "tool_calls"));
    assert!(matches!(member(call, "index"), Out::Number(2)));
    assert!(is_text(member(call, "id"), "call_3_2"));
    let last = last_answer("chatcmpl-3", "hy3", 0, 4, 6);
    let choice = first(member(&last, "choices"));
    assert!(members(member(choice, "delta")).is_empty());
    assert!(is_text(member(choice, "finish_reason"), "stop"));
    assert!(matches!(member(member(&last, "usage"), "prompt_tokens"), Out::Number(4)));
}
