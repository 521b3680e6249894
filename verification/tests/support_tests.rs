use lpu::assembler::immediate::ImmediateType;
use lpu::assembler::operand::OperandType;
use lpu::exception::{BaseException, Exception};
use lpu::processor::control_unit::instruction::RType;
use lpu::processor::control_unit::language_logic_unit::micro_prompt::{create, false_values, true_values};
use lpu::processor::control_unit::language_logic_unit::openai::{
    OpenAIChatCompletionResponse, OpenAIChatCompletionResponseChoice, OpenAIChatCompletionResponseMessage,
    OpenAIClient,
};
use lpu::processor::control_unit::language_logic_unit::{
    ContextMessage, LanguageLogicUnit, SYSTEM_PROMPT, SYSTEM_ROLE, USER_ROLE,
};
use lpu::text::{
    chars_equal, chars_of, copy_range, decimal, is_alpha, is_digit, is_whitespace, lower, parse_u32, replace, trim,
    trim_end,
};
use lpu::word::{from_be_bytes, to_be_bytes, words_to_bytes};

fn cs(s: &str) -> Vec<char> {
    s.chars().collect()
}

#[test]
fn character_classes() {
    assert!(is_alpha('a') && is_alpha('Z') && is_alpha('_') && is_alpha(':'));
    assert!(!is_alpha('1') && !is_alpha(' ') && !is_alpha('"'));
    assert!(is_digit('0') && is_digit('9') && !is_digit('a'));
    assert_eq!(lower('Q'), 'q');
    assert_eq!(lower('q'), 'q');
    assert_eq!(lower('1'), '1');
    assert!(is_whitespace(' ') && is_whitespace('\n') && is_whitespace('\u{a0}') && is_whitespace('\u{3000}'));
    assert!(!is_whitespace('x'));
}

#[test]
fn parse_numbers() {
    assert_eq!(parse_u32(&cs("0")), Some(0));
    assert_eq!(parse_u32(&cs("4294967295")), Some(u32::MAX));
    assert_eq!(parse_u32(&cs("+17")), Some(17));
    assert_eq!(parse_u32(&cs("4294967296")), None);
    assert_eq!(parse_u32(&cs("")), None);
    assert_eq!(parse_u32(&cs("+")), None);
    assert_eq!(parse_u32(&cs("-1")), None);
    assert_eq!(parse_u32(&cs("1a")), None);
    for n in ["7", "007", "123456", "+0"] {
        assert_eq!(parse_u32(&cs(n)), n.parse::<u32>().ok());
    }
}

#[test]
fn decimal_digits() {
    assert_eq!(decimal(0), cs("0"));
    assert_eq!(decimal(1234), cs("1234"));
    assert_eq!(decimal(u32::MAX as u64), cs("4294967295"));
    assert_eq!(decimal(u64::MAX), cs("18446744073709551615"));
}

#[test]
fn trims_and_replacements() {
    assert_eq!(trim_end(&cs("loop::"), ':'), cs("loop"));
    assert_eq!(trim_end(&cs("loop"), ':'), cs("loop"));
    assert_eq!(trim(&cs("  a b \n")), cs("a b"));
    assert_eq!(trim(&cs("   ")), cs(""));
    assert_eq!(replace(&cs("a\\nb\\n"), &cs("\\n"), &cs("\n")), cs("a\nb\n"));
    assert_eq!(replace(&cs("aaa"), &cs("aa"), &cs("b")), cs("ba"));
    assert_eq!(replace(&cs("abc"), &cs("x"), &cs("y")), cs("abc"));
}

#[test]
fn string_conversions() {
    assert_eq!(chars_of("añb"), vec!['a', 'ñ', 'b']);
    assert_eq!(chars_of(""), Vec::<char>::new());
    assert!(chars_equal(&cs("ab"), &cs("ab")));
    assert!(!chars_equal(&cs("ab"), &cs("abc")));
    assert!(!chars_equal(&cs("ab"), &cs("ac")));
    assert_eq!(copy_range(&cs("héllo"), 1, 4), cs("éll"));
    assert_eq!(copy_range(&cs("abc"), 2, 2), cs(""));
}

#[test]
fn big_endian_words() {
    assert_eq!(to_be_bytes(0x0102_0304), [1, 2, 3, 4]);
    assert_eq!(from_be_bytes([0xFF, 0, 0, 1]), 0xFF00_0001);
    for w in [0u32, 1, 0x7FFF_FFFF, u32::MAX, 0xDEAD_BEEF] {
        assert_eq!(from_be_bytes(to_be_bytes(w)), w);
        assert_eq!(to_be_bytes(w), w.to_be_bytes());
    }
    assert_eq!(words_to_bytes(&vec![2, 0x0A0B]), vec![0, 0, 0, 2, 0, 0, 0x0A, 0x0B]);
    assert_eq!(words_to_bytes(&vec![]), Vec::<u8>::new());
}

#[test]
fn operand_and_immediate_kinds() {
    assert_eq!(OperandType::from_be_bytes([0, 0, 0, 2]), Ok(OperandType::REGISTER));
    assert_eq!(OperandType::from_be_bytes([0, 0, 0, 0]), Ok(OperandType::NUMBER));
    assert_eq!(OperandType::from_be_bytes([0, 0, 0, 3]), Err("Invalid operand type byte."));
    assert_eq!(OperandType::TEXT.to_be_bytes(), [0, 0, 0, 1]);
    assert_eq!(ImmediateType::from_be_bytes([0, 0, 0, 1]), Ok(ImmediateType::TEXT));
    assert_eq!(ImmediateType::from_be_bytes([0, 0, 0, 0]), Ok(ImmediateType::NUMBER));
    assert_eq!(
        ImmediateType::from_be_bytes([0, 0, 1, 0]),
        Err("Byte value does not correspond to any known immediate type.")
    );
    assert_eq!(ImmediateType::NUMBER.to_be_bytes(), Ok([0, 0, 0, 0]));
    assert_eq!(ImmediateType::TEXT.to_be_bytes(), Ok([0, 0, 0, 1]));
}

#[test]
fn micro_prompts() {
    assert_eq!(create(&RType::Morph, "X").unwrap(), "Transform it into the following format:\nX\n\nTransformed Output:");
    assert_eq!(
        create(&RType::Project, "up").unwrap(),
        "Project how it might evolve based on this direction or trend:\nup\n\nProjected Output:"
    );
    assert_eq!(create(&RType::Distill, "").unwrap(), "Distill it down following the goal or criteria:\n\n\nDistilled Result:");
    assert_eq!(create(&RType::Correlate, "b").unwrap(), "Find the correlation with:\nb\n\nRelational Analysis:");
    assert_eq!(create(&RType::Audit, "rule").unwrap(), "Does it comply with the evidence:\nrule\n\nYES/NO:");
    assert_eq!(create(&RType::Similarity, "x"), Err("Unsupported r_type for micro prompt generation."));
    assert_eq!(true_values(&RType::Audit).unwrap(), vec!["YES"]);
    assert_eq!(false_values(&RType::Audit).unwrap(), vec!["NO"]);
    assert_eq!(true_values(&RType::Morph), Err("Unsupported r_type for true values."));
    assert_eq!(false_values(&RType::Similarity), Err("Unsupported r_type for false values."));
}

#[test]
fn clean_replies() {
    assert_eq!(LanguageLogicUnit::clean_string("  yes\n"), "yes");
    assert_eq!(LanguageLogicUnit::clean_string("a\nb \n c"), "ab  c");
    assert_eq!(LanguageLogicUnit::clean_string("\n\n"), "");
}

#[test]
fn verdicts() {
    assert_eq!(LanguageLogicUnit::boolean(&vec![90], &vec![10]), 100);
    assert_eq!(LanguageLogicUnit::boolean(&vec![10, 80], &vec![79, 3]), 100);
    assert_eq!(LanguageLogicUnit::boolean(&vec![50], &vec![50]), 0);
    assert_eq!(LanguageLogicUnit::boolean(&vec![10], &vec![90]), 0);
    assert_eq!(LanguageLogicUnit::boolean(&vec![], &vec![]), 0);
    assert_eq!(LanguageLogicUnit::boolean(&vec![1], &vec![]), 100);
}

#[test]
fn chat_request_messages() {
    let context = vec![ContextMessage::new("assistant", "earlier"), ContextMessage::new("user", "before")];
    let messages = LanguageLogicUnit::chat_messages("now", &context);
    let pairs: Vec<(String, String)> = messages.iter().map(|m| (m.role.clone(), m.content.clone())).collect();
    assert_eq!(
        pairs,
        vec![
            (SYSTEM_ROLE.to_string(), SYSTEM_PROMPT.to_string()),
            ("assistant".to_string(), "earlier".to_string()),
            ("user".to_string(), "before".to_string()),
            (USER_ROLE.to_string(), "now".to_string()),
        ]
    );
    assert_eq!(LanguageLogicUnit::chat_messages("only", &vec![]).len(), 2);
}

#[test]
fn reply_content() {
    let reply = OpenAIChatCompletionResponse {
        model: "m".to_string(),
        choices: vec![
            OpenAIChatCompletionResponseChoice {
                index: 0,
                message: OpenAIChatCompletionResponseMessage { role: "assistant".to_string(), content: " first\n".to_string() },
            },
            OpenAIChatCompletionResponseChoice {
                index: 1,
                message: OpenAIChatCompletionResponseMessage { role: "assistant".to_string(), content: "second".to_string() },
            },
        ],
    };
    assert_eq!(LanguageLogicUnit::string(&reply), Ok("first".to_string()));
    let empty = OpenAIChatCompletionResponse { model: "m".to_string(), choices: vec![] };
    assert_eq!(LanguageLogicUnit::string(&empty), Err("No choices returned from client."));
}

#[test]
fn client_urls() {
    let c = OpenAIClient::new();
    assert_eq!(c.chat_completion_url(), "http://127.0.0.1:8080/v1/chat/completions");
    assert_eq!(c.embeddings_url(), "http://127.0.0.1:8080/v1/embeddings");
    assert_eq!(c.timeout_secs(), 120);
    let d = OpenAIClient::with_endpoints("http://h:1".to_string(), "c".to_string(), "e".to_string(), 5);
    assert_eq!(d.chat_completion_url(), "http://h:1/c");
    assert_eq!(d.embeddings_url(), "http://h:1/e");
    assert_eq!(d.timeout_secs(), 5);
    assert!(OpenAIClient::accepts_status(200));
    assert!(!OpenAIClient::accepts_status(201));
    assert!(!OpenAIClient::accepts_status(500));
}

#[test]
fn exceptions_convert() {
    let inner = BaseException::new("inner".to_string(), None);
    let e = Exception::DecoderException(BaseException::new("bad opcode".to_string(), Some(Box::new(inner))));
    let b: BaseException = e.into();
    assert_eq!(b.message, "bad opcode");
    assert_eq!(b.to_string(), "bad opcode");
    assert_eq!(b.inner_exception.unwrap().message, "inner");
    let s: BaseException = "plain".to_string().into();
    assert_eq!(s.message, "plain");
    assert!(s.inner_exception.is_none());
    for e in [
        Exception::StartUpException(BaseException::new("a".to_string(), None)),
        Exception::OpenAIChatCompletionException(BaseException::new("b".to_string(), None)),
        Exception::OpenAIEmbeddingsException(BaseException::new("c".to_string(), None)),
        Exception::LanguageLogicException(BaseException::new("d".to_string(), None)),
        Exception::ExecutorException(BaseException::new("e".to_string(), None)),
    ] {
        let b: BaseException = e.into();
        assert_eq!(b.message.len(), 1);
    }
}
