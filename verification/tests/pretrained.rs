use atomic_neural_transistors::{model_path, models_dir, Pretrained};

#[test]
fn models_live_under_the_root() {
    assert_eq!(models_dir("/opt/ants"), "/opt/ants/models");
    assert_eq!(models_dir(""), "/models");
}

#[test]
fn each_unit_has_its_file() {
    assert_eq!(model_path("m", Pretrained::AreEqual), "m/are_equal.safetensors");
    assert_eq!(model_path("m", Pretrained::IsEmpty), "m/is_empty.safetensors");
    assert_eq!(model_path("m", Pretrained::Contains), "m/contains.safetensors");
    assert_eq!(model_path("m", Pretrained::HasDuplicate), "m/has_duplicate.safetensors");
    assert_eq!(Pretrained::Contains.stem(), "contains");
}

#[test]
fn each_unit_has_its_dimensions() {
    let equal = Pretrained::AreEqual.config();
    assert_eq!((equal.input_dim, equal.hidden_dim, equal.output_dim, equal.iterations), (64, 16, 1, 2));
    let empty = Pretrained::IsEmpty.config();
    assert_eq!((empty.input_dim, empty.hidden_dim, empty.output_dim, empty.iterations), (32, 16, 1, 2));
    let contains = Pretrained::Contains.config();
    assert_eq!((contains.input_dim, contains.hidden_dim, contains.output_dim), (64, 24, 1));
    let duplicate = Pretrained::HasDuplicate.config();
    assert_eq!((duplicate.input_dim, duplicate.hidden_dim, duplicate.output_dim), (64, 24, 1));
}
