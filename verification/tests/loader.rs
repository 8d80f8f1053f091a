use std::collections::HashMap;

use rllm::model::loader::{
    batch_size, checkpoint_quant_schema, files_to_download, find_safetensor_shards, has_traversal,
    hf_download_concurrency, is_auth_error, is_tied, load_shard_index, should_prompt_for_token,
    token_from_settings, widen_u16, DirectoryFacts, ShardError, ShardIndexError, ShardSource,
};
use rllm::model::shards::{data_end_fits, Checkpoint, ElementType, Elements, ShardFault};
use rllm::tensor::device::Device;
use safetensors::tensor::TensorView;
use safetensors::Dtype;

fn names(list: &[&str]) -> Vec<String> {
    list.iter().map(|name| name.to_string()).collect()
}

fn directory(list: &[&str]) -> DirectoryFacts {
    let has = |name: &str| list.contains(&name);
    DirectoryFacts {
        is_dir: true,
        has_index: has("model.safetensors.index.json"),
        has_single: has("model.safetensors"),
        names: names(list),
    }
}

#[test]
fn find_shards_in_missing_dir() {
    let facts =
        DirectoryFacts { is_dir: false, has_index: false, has_single: false, names: vec![] };
    let result = find_safetensor_shards(&facts);
    assert!(result.is_err());
    assert!(matches!(result, Err(ShardError::MissingDirectory)));
}

#[test]
fn shards_are_found_by_index_then_single_file_then_number() {
    let all = directory(&["model.safetensors", "model.safetensors.index.json"]);
    assert!(matches!(find_safetensor_shards(&all), Ok(ShardSource::Index)));
    match find_safetensor_shards(&directory(&["model.safetensors", "config.json"])) {
        Ok(ShardSource::Files(files)) => assert_eq!(files, vec!["model.safetensors"]),
        other => panic!("unexpected source {other:?}"),
    }
    let numbered = directory(&[
        "model-00001-of-00002.safetensors",
        "tokenizer.json",
        "model-00000-of-00002.safetensors",
        "model-00003-of-00002.safetensors",
    ]);
    match find_safetensor_shards(&numbered) {
        Ok(ShardSource::Files(files)) => assert_eq!(
            files,
            vec!["model-00000-of-00002.safetensors", "model-00001-of-00002.safetensors"]
        ),
        other => panic!("unexpected source {other:?}"),
    }
    assert!(matches!(find_safetensor_shards(&directory(&["a.txt"])), Err(ShardError::NoFiles)));
}

#[test]
fn test_load_shard_index_nonexistent_shards() {
    let files =
        names(&["model-00001-of-00002.safetensors", "model-00002-of-00002.safetensors"]);

    let paths = load_shard_index(&files, &vec![], true).unwrap();
    assert_eq!(paths.len(), 2);
    assert_eq!(paths[0], "model-00001-of-00002.safetensors");
    assert_eq!(paths[1], "model-00002-of-00002.safetensors");

    let result = load_shard_index(&files, &vec![], false);
    assert!(result.is_err());
    let error = result.unwrap_err();
    assert_eq!(error, ShardIndexError::NotFound("model-00001-of-00002.safetensors".to_string()));
    assert!(error.message("/m/model-00001-of-00002.safetensors").contains("shard file not found"));
}

#[test]
fn test_load_shard_index_path_traversal() {
    let result = load_shard_index(&names(&["../escaped.safetensors"]), &vec![], false);
    assert!(result.is_err());
    assert!(result.unwrap_err().message("").contains("path traversal detected"));

    let result = load_shard_index(&names(&["/absolute/path.safetensors"]), &vec![], false);
    assert!(result.is_err());
    assert!(result.unwrap_err().message("").contains("path traversal detected"));
}

#[test]
fn shard_names_come_once_and_in_order() {
    let files = names(&["b.safetensors", "a.safetensors", "b.safetensors", "a.safetensors"]);
    let present = names(&["a.safetensors", "b.safetensors", "c.safetensors"]);
    let paths = load_shard_index(&files, &present, false).unwrap();
    assert_eq!(paths, vec!["a.safetensors", "b.safetensors"]);
}

#[test]
fn names_that_stay_inside_are_no_traversal() {
    assert!(!has_traversal("shards/model.safetensors"));
    assert!(!has_traversal("..hidden"));
    assert!(!has_traversal("a..b/c"));
    assert!(has_traversal("a/../b"));
    assert!(has_traversal(".."));
    assert!(has_traversal("/etc"));
}

#[test]
fn downloads_follow_the_repository() {
    let indexed = names(&["model.safetensors", "model.safetensors.index.json"]);
    assert!(matches!(files_to_download(&indexed), Some(ShardSource::Index)));
    match files_to_download(&names(&["README.md", "model.safetensors"])) {
        Some(ShardSource::Files(files)) => assert_eq!(files, vec!["model.safetensors"]),
        other => panic!("unexpected plan {other:?}"),
    }
    assert!(files_to_download(&names(&["README.md"])).is_none());
}

#[test]
fn the_first_setting_decides_the_token() {
    let set = |value: &str| Some(value.to_string());
    assert_eq!(token_from_settings(&vec![None, set(" hf_x \n"), set("y")]), set("hf_x"));
    assert_eq!(token_from_settings(&vec![set("  "), set("y")]), None);
    assert_eq!(token_from_settings(&vec![None, None]), None);
}

#[test]
fn downloads_run_in_batches() {
    let set = |value: &str| Some(value.to_string());
    assert_eq!(hf_download_concurrency(&None), 4);
    assert_eq!(hf_download_concurrency(&set("9")), 9);
    assert_eq!(hf_download_concurrency(&set("0")), 4);
    assert_eq!(hf_download_concurrency(&set("many")), 4);
    assert_eq!(batch_size(4, 2), 2);
    assert_eq!(batch_size(4, 20), 4);
}

#[test]
fn refusals_lead_to_a_prompt_without_a_token() {
    assert!(is_auth_error("status code 401"));
    assert!(is_auth_error("Forbidden"));
    assert!(!is_auth_error("status code 404"));
    assert!(should_prompt_for_token("403", false));
    assert!(!should_prompt_for_token("403", true));
    assert!(is_tied(false, true) && !is_tied(true, true) && !is_tied(false, false));
}

#[test]
fn schemas_come_from_the_configuration() {
    let schema = checkpoint_quant_schema(
        r#"{"quantization_config": {"quant_method": "compressed-tensors"}}"#,
    )
    .unwrap()
    .unwrap();
    assert_eq!(schema.quant_method.as_deref(), Some("compressed-tensors"));
    assert!(checkpoint_quant_schema("{}").unwrap().is_none());
    assert!(checkpoint_quant_schema("{").is_err());
}

#[test]
fn halfwords_widen_from_the_low_byte() {
    assert_eq!(widen_u16(&[1, 0, 0, 1, 0xff, 0xff, 7]), vec![1, 256, 65535]);
}

fn shard(tensors: Vec<(&str, Dtype, Vec<usize>, Vec<u8>)>) -> Vec<u8> {
    let views: HashMap<String, TensorView<'_>> = tensors
        .iter()
        .map(|(name, dtype, shape, data)| {
            (name.to_string(), TensorView::new(*dtype, shape.clone(), data).unwrap())
        })
        .collect();
    safetensors::serialize(&views, None).unwrap()
}

#[test]
fn shards_are_sorted_by_element_type() {
    let bytes = shard(vec![
        ("model.embed_tokens.weight", Dtype::F32, vec![1, 2], vec![0, 0, 128, 63, 0, 0, 0, 64]),
        ("q.weight", Dtype::I8, vec![2, 2], vec![0, 255, 128, 127]),
        ("ids", Dtype::U16, vec![2], vec![1, 0, 2, 1]),
    ]);
    let mut checkpoint =
        Checkpoint::new().load_safetensors_shard(&bytes, &Device::Cpu).unwrap();
    assert!(checkpoint.has_tied_head());
    let q = checkpoint.quantized.take("q.weight").unwrap();
    assert_eq!(q.data(), &vec![0, -1, -128, 127]);
    assert_eq!(q.shape(), &vec![2, 2]);
    let ids = checkpoint.weights.take("ids").unwrap();
    assert_eq!(ids.shape, vec![2]);
    match ids.elements {
        Elements::Words(words) => assert_eq!(words, vec![1, 258]),
        other => panic!("unexpected elements {other:?}"),
    }
    let embed = checkpoint.weights.take("model.embed_tokens.weight").unwrap();
    match embed.elements {
        Elements::Raw(ElementType::F32, data) => {
            assert_eq!(data, vec![0, 0, 128, 63, 0, 0, 0, 64]);
        }
        other => panic!("unexpected elements {other:?}"),
    }
    assert_eq!(embed.shape, vec![1, 2]);
}

#[test]
fn tensors_of_later_shards_replace_earlier_ones() {
    let first = shard(vec![("w", Dtype::U8, vec![1], vec![1]), ("v", Dtype::U8, vec![1], vec![9])]);
    let second = shard(vec![("w", Dtype::U8, vec![2], vec![2, 3])]);
    let mut checkpoint = Checkpoint::new()
        .load_safetensors_shard(&first, &Device::Cpu)
        .unwrap()
        .load_safetensors_shard(&second, &Device::Cpu)
        .unwrap();
    match checkpoint.weights.take("w").unwrap().elements {
        Elements::Raw(ElementType::U8, data) => assert_eq!(data, vec![2, 3]),
        other => panic!("unexpected elements {other:?}"),
    }
    assert!(checkpoint.weights.contains("v"));
    assert!(!checkpoint.has_tied_head());
}

#[test]
fn unreadable_shards_are_refused() {
    let result = Checkpoint::new().load_safetensors_shard(&[1, 2, 3], &Device::Cpu);
    assert!(matches!(result, Err(ShardFault::Malformed)));
    let bytes = shard(vec![("mask", Dtype::BOOL, vec![1], vec![1])]);
    match Checkpoint::new().load_safetensors_shard(&bytes, &Device::Cpu) {
        Err(ShardFault::Unsupported(error)) => {
            assert_eq!(error.name, "mask");
            assert_eq!(error.message(), "unsupported SafeTensors dtype BOOL");
        }
        other => panic!("unexpected result {:?}", other.is_ok()),
    }
}

#[test]
fn shards_that_declare_too_much_are_refused() {
    let size = 2305843009213693951u64;
    let members: Vec<String> = (0..8)
        .map(|i: u64| {
            format!(
                "\"t{i}\":{{\"dtype\":\"U8\",\"shape\":[{size}],\"data_offsets\":[{},{}]}}",
                i * size,
                (i + 1) * size
            )
        })
        .collect();
    let header = format!("{{{}}}", members.join(","));
    let mut bytes = (header.len() as u64).to_le_bytes().to_vec();
    bytes.extend(header.as_bytes());
    assert!(!data_end_fits(&bytes));
    let result = Checkpoint::new().load_safetensors_shard(&bytes, &Device::Cpu);
    assert!(matches!(result, Err(ShardFault::Malformed)));
    assert!(data_end_fits(&shard(vec![("w", Dtype::U8, vec![1], vec![1])])));
    assert!(data_end_fits(&[1, 2, 3]));
}

#[test]
fn model_runner_placeholder() {
    // A model runner needs the files of a model; see the tests of the checkpoints.
}
