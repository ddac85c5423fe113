use recall::embed::next_prompt;
use recall::embed::prompt;
use recall::embed::prompts;
use recall::embed::NoEmbed;
use recall::embed::Role;
use recall::error::Error;
use recall::error::Status;
use recall::json::Json;
use recall::json::Number;
use recall::json::StrMap;
use recall::ollama::embeddings;
use recall::ollama::Ollama;
use recall::onnx::cls_row;
use recall::onnx::first_row;
use recall::onnx::ModelInput;
use recall::onnx::Onnx;
use recall::onnx::MAX_TOKENS;
use recall::phases::cost;
use recall::request::Answer;
use recall::request::Method;
use recall::request::Reads;

#[test]
fn the_instruction_is_prefixed_to_a_query_and_never_to_a_document() {
    assert_eq!(
        prompt("kettle", Role::Query),
        "Represent this sentence for searching relevant passages: kettle"
    );
    assert_eq!(prompt("kettle", Role::Document), "kettle");
    let texts = vec!["a".to_string(), "".to_string()];
    assert_eq!(prompts(&texts, Role::Document), texts);
    assert_eq!(
        prompts(&texts, Role::Query)[1],
        "Represent this sentence for searching relevant passages: "
    );
}

#[test]
fn each_text_gets_one_vector_in_its_turn() {
    let texts = vec!["a".to_string(), "b".to_string()];
    let mut given = Vec::new();
    let mut vectors: Vec<Vec<f32>> = Vec::new();
    while let Some(p) = next_prompt(&texts, Role::Query, &vectors) {
        given.push(p);
        vectors.push(vec![1.0]);
    }
    assert_eq!(given, prompts(&texts, Role::Query));
    assert_eq!(vectors.len(), 2);
    assert_eq!(next_prompt::<f32>(&texts, Role::Document, &vec![]), Some("a".to_string()));
    assert_eq!(next_prompt::<f32>(&[], Role::Document, &vec![]), None);
}

#[test]
fn no_embedder_embeds_nothing() {
    assert_eq!(NoEmbed.dim(), 0);
    assert_eq!(NoEmbed.name(), "none");
    let r: Result<Vec<Vec<f32>>, Error> = NoEmbed.embed(&["x".to_string()], Role::Document);
    assert_eq!(r, Err(Error::NoEmbedder));
    assert_eq!(Error::NoEmbedder.message(), "this store was opened without an embedder");
}

#[test]
fn an_encoder_needs_both_files() {
    assert_eq!(Onnx::check_files("m", true, "t", true), Ok(()));
    let e = Onnx::check_files("dir/m.onnx", false, "t", false).unwrap_err();
    assert_eq!(e, Error::ModelNotFound("dir/m.onnx".into()));
    assert_eq!(e.message(), "embedding model dir/m.onnx not found");
    let e = Onnx::check_files("m", true, "dir/t.json", false).unwrap_err();
    assert_eq!(e, Error::TokenizerNotFound("dir/t.json".into()));
    assert_eq!(e.message(), "tokenizer dir/t.json not found");
}

#[test]
fn an_encoder_is_named_after_its_directory_and_learns_its_dimension() {
    let mut e = Onnx::load(Some("bge-small-en-v1.5".into()));
    assert_eq!(e.name, "bge-small-en-v1.5");
    assert_eq!(e.dim, 0);
    assert_eq!(Onnx::load(None).name, "onnx");
    assert_eq!(e.warm_up(&vec![vec![0.5f32; 384]]), Ok(()));
    assert_eq!(e.dim, 384);
    assert_eq!(e.warm_up(&Vec::<Vec<f32>>::new()), Err(Error::EmptyVector));
    assert_eq!(e.warm_up(&vec![Vec::<f32>::new()]), Err(Error::EmptyVector));
    assert_eq!(Error::EmptyVector.message(), "embedding model produced an empty vector");
    assert_eq!(MAX_TOKENS, 512);
}

#[test]
fn token_rows_are_widened() {
    let i = ModelInput::of(&[101, u32::MAX, 102], &[1, 1, 1], &[0, 0, 0]);
    assert_eq!(i.tokens, 3);
    assert_eq!(i.input_ids, vec![101, 4_294_967_295, 102]);
    assert_eq!(i.attention_mask, vec![1, 1, 1]);
    assert_eq!(i.token_type_ids, vec![0, 0, 0]);
}

#[test]
fn the_first_row_is_as_long_as_the_last_extent() {
    assert_eq!(first_row(&[1, 7, 384], 7 * 384), Ok(384));
    assert_eq!(first_row(&[1, 1, 4], 4), Ok(4));
    assert_eq!(first_row(&[1, 1, 4], 3), Err(Error::OutputTooSmall));
    assert_eq!(first_row(&[1, 0], 0), Err(Error::OutputTooSmall));
    assert_eq!(first_row(&[1, -1], 10), Err(Error::OutputTooSmall));
    assert_eq!(first_row(&[], 10), Err(Error::NoShape));
    assert_eq!(Error::OutputTooSmall.message(), "embedding output too small");
    assert_eq!(Error::NoShape.message(), "embedding output has no shape");
}

#[test]
fn the_row_of_the_first_token_is_cut_from_the_front() {
    let data = [0.5f32, 1.5, 2.5, 3.5, 4.5, 5.5];
    assert_eq!(cls_row(&[1, 2, 3], &data), Ok(vec![0.5, 1.5, 2.5]));
    assert_eq!(cls_row(&[1, 1, 6], &data), Ok(data.to_vec()));
    assert_eq!(cls_row(&[1, 9, 3], &data), Ok(vec![0.5, 1.5, 2.5]));
    assert_eq!(cls_row(&[1, 1, 7], &data), Err(Error::OutputTooSmall));
    assert_eq!(cls_row(&[1, 6, 0], &data), Err(Error::OutputTooSmall));
    assert_eq!(cls_row(&[1, 6, -1], &data), Err(Error::OutputTooSmall));
    assert_eq!(cls_row(&[], &data), Err(Error::NoShape));
    let mut e = Onnx::load(None);
    e.warm_up(&vec![cls_row(&[1, 2, 3], &data).unwrap()]).unwrap();
    assert_eq!(cls_row(&[1, 1, 3], &data[3..]).unwrap().len(), e.dim);
}

#[test]
fn ollama_is_asked_with_prompts() {
    let o = Ollama::new("http://127.0.0.1:11434//", "nomic");
    assert_eq!(o.endpoint, "http://127.0.0.1:11434");
    let r = o.embed(&["a".to_string(), "b".to_string()], Role::Query);
    assert_eq!(r.method, Method::Post);
    assert_eq!(r.url, "http://127.0.0.1:11434/api/embed");
    assert_eq!(r.reads, Reads::DocumentOrClientError);
    let input = vec![
        Json::text("Represent this sentence for searching relevant passages: a"),
        Json::text("Represent this sentence for searching relevant passages: b"),
    ];
    let body = StrMap::empty().set("model", Json::text("nomic")).set("input", Json::Array(input));
    assert_eq!(r.body, Some(Json::Object(body)));
}

#[test]
fn ollama_learns_its_dimension_from_what_came() {
    let mut o = Ollama::new("http://x", "m");
    assert_eq!(o.dim, 0);
    o.learn(&vec![vec![0.0f32; 768], vec![0.0f32; 3]]);
    assert_eq!(o.dim, 768);
    o.learn(&Vec::<Vec<f32>>::new());
    assert_eq!(o.dim, 768);
}

fn answered(embeddings: Json) -> Answer {
    Answer::Document(Json::Object(StrMap::empty().set("embeddings", embeddings)))
}

#[test]
fn ollamas_rows_are_read_in_their_order() {
    let half = || Json::Number(Number::Float("0.5".into()));
    let rows = Json::Array(vec![
        Json::Array(vec![half(), Json::integer(-1)]),
        Json::Array(vec![Json::integer(2)]),
        Json::Array(vec![]),
    ]);
    let want = vec![
        vec![Number::Float("0.5".into()), Number::Int(-1)],
        vec![Number::Int(2)],
        vec![],
    ];
    assert_eq!(embeddings(answered(rows.clone())), Ok(want.clone()));
    let mut o = Ollama::new("http://x", "m");
    assert_eq!(o.embedded(answered(rows)), Ok(want));
    assert_eq!(o.dim, 2);
    assert_eq!(o.embedded(answered(Json::Array(vec![]))), Ok(vec![]));
    assert_eq!(o.dim, 2);
    let misshapen = [
        answered(Json::Null),
        answered(half()),
        answered(Json::Array(vec![half()])),
        answered(Json::Array(vec![Json::Array(vec![half(), Json::Null])])),
        answered(Json::Array(vec![Json::Array(vec![half()]), Json::text("x")])),
        Answer::Document(Json::Object(StrMap::empty())),
        Answer::Document(Json::Null),
    ];
    for answer in misshapen {
        assert_eq!(o.embedded(answer), Err(Error::EmbedAnswer));
        assert_eq!(o.dim, 2);
    }
    assert_eq!(Error::EmbedAnswer.message(), "ollama embed answer");
    let refused = Status { code: 500, text: "500 Internal Server Error".into() };
    for answer in [
        Answer::Refused(refused, "why".into()),
        Answer::Unreachable("why".into()),
        Answer::Unreadable("why".into()),
    ] {
        assert_eq!(o.embedded(answer), Err(Error::Http("why".into())));
        assert_eq!(o.dim, 2);
    }
}

#[test]
fn the_first_pass_embeds_one_document() {
    assert_eq!(Onnx::warm_up_texts(), (vec!["hello".to_string()], Role::Document));
}

#[test]
fn the_half_that_cost_is_named() {
    assert_eq!(cost(true, false), "embed");
    assert_eq!(cost(false, true), "qdrant");
    assert_eq!(cost(false, false), "even");
    assert_eq!(cost(true, true), "embed");
}
