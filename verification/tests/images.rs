use zagent::image::{
    advance, detect_format, image_authorization, image_file_name, image_of, image_request_body,
    read_image_answer, GenerateImageToolInput, GenerateImageToolOutput, GeneratedImage,
    ImageAction, ImageEvent, ImageFormat, ImageStage, Reply,
};

fn input(size: Option<&str>) -> GenerateImageToolInput {
    GenerateImageToolInput {
        prompt: "a cat".to_string(),
        size: size.map(|s| s.to_string()),
    }
}

const ANSWER: &str = "{\"data\":[{\"url\":\"http://i/1\",\"ratio\":\"1:1\",\"resolution\":\"1K\"}]}";

#[test]
fn image_requests() {
    let body: serde_json::Value = serde_json::from_str(&image_request_body(&input(None))).unwrap();
    assert_eq!(body["prompt"].as_str(), Some("a cat"));
    assert_eq!(body["size"].as_str(), Some("1024x1024"));
    assert_eq!(body["n"].as_u64(), Some(1));
    let body: serde_json::Value =
        serde_json::from_str(&image_request_body(&input(Some("1792x1024")))).unwrap();
    assert_eq!(body["size"].as_str(), Some("1792x1024"));
    assert_eq!(image_authorization("`a cat`"), "Generate an image for `a cat`");
}

#[test]
fn image_answers() {
    let image = read_image_answer(ANSWER).unwrap();
    assert_eq!(
        (image.url.as_str(), image.ratio.as_str(), image.resolution.as_str()),
        ("http://i/1", "1:1", "1K")
    );
    let image = read_image_answer("{\"data\":[{\"url\":\"u\",\"ratio\":3}]}").unwrap();
    assert_eq!((image.ratio.as_str(), image.resolution.as_str()), ("", ""));
    assert_eq!(
        read_image_answer("{\"data\":[]}").unwrap_err(),
        "no image url in response: {\"data\":[]}"
    );
    assert_eq!(read_image_answer("[1]").unwrap_err(), "no image url in response: [1]");
    assert!(read_image_answer("nope").unwrap_err().starts_with("bad image response: "));
    assert_eq!(
        image_of(Err("why".to_string()), "b").unwrap_err(),
        "bad image response: why"
    );
    let parsed: serde_json::Value = serde_json::from_str(ANSWER).unwrap();
    assert_eq!(image_of(Ok(parsed), "ignored").unwrap().url, "http://i/1");
}

#[test]
fn image_formats() {
    assert_eq!(detect_format(b"\x89PNG\r\n\x1a\n"), ImageFormat::Png);
    assert_eq!(detect_format(b"\xff\xd8\xff\xe0"), ImageFormat::Jpeg);
    assert_eq!(detect_format(b"\xff\xd8"), ImageFormat::Png);
    assert_eq!(detect_format(b""), ImageFormat::Png);
    assert_eq!(ImageFormat::Png.mime(), "image/png");
    assert_eq!(ImageFormat::Jpeg.mime(), "image/jpeg");
    assert_eq!(image_file_name(1700), "image-1700.png");
}

#[test]
fn image_run() {
    let stage = ImageStage::Authorizing { input: input(None) };
    let (stage, action) = advance(stage, ImageEvent::Authorized(Ok(())));
    match action {
        ImageAction::Post { title, uri, body } => {
            assert_eq!(title, "Generating image…");
            assert_eq!(
                uri,
                "https://zai-proxy-worker.tranlequybaotk12.workers.dev/v1/images/generations"
            );
            assert_eq!(body, image_request_body(&input(None)));
        }
        _ => panic!("no request"),
    }
    let got = Reply::Got { status: 200, body: ANSWER.to_string() };
    let (stage, action) = advance(stage, ImageEvent::Answered(got));
    match action {
        ImageAction::MakeDirectory { title, name } => {
            assert_eq!((title.as_str(), name.as_str()), ("Saving image…", "zagent-images"))
        }
        _ => panic!("no directory"),
    }
    let (stage, action) = advance(stage, ImageEvent::DirectoryMade(Ok(())));
    assert!(matches!(action, ImageAction::TakeTime));
    let (stage, action) = advance(stage, ImageEvent::Stamped(Ok(99)));
    match action {
        ImageAction::Download { url, file } => {
            assert_eq!((url.as_str(), file.as_str()), ("http://i/1", "image-99.png"))
        }
        _ => panic!("no download"),
    }
    let bytes = b"\xff\xd8\xff\x00".to_vec();
    let (stage, action) = advance(
        stage,
        ImageEvent::Downloaded(Reply::Got { status: 200, body: bytes.clone() }),
    );
    match action {
        ImageAction::Write { file, bytes: written } => {
            assert_eq!(file, "image-99.png");
            assert_eq!(written, bytes);
        }
        _ => panic!("no file"),
    }
    let (stage, action) = advance(stage, ImageEvent::Written(Ok("/p/image-99.png".to_string())));
    match action {
        ImageAction::Finish { format, title, image } => {
            assert_eq!(format, ImageFormat::Jpeg);
            assert_eq!(title, "Image generated");
            assert_eq!(
                GenerateImageToolOutput::Success(image).content(),
                "Generated image (1:1 1K).\nSaved to: /p/image-99.png\nURL: http://i/1"
            );
        }
        _ => panic!("no end"),
    }
    assert!(matches!(
        advance(stage, ImageEvent::Written(Ok(String::new()))),
        (ImageStage::Finished, ImageAction::Wait)
    ));
}

fn failure(stage: ImageStage, event: ImageEvent) -> String {
    match advance(stage, event) {
        (ImageStage::Finished, ImageAction::Fail { error }) => error,
        _ => panic!("no failure"),
    }
}

#[test]
fn image_failures() {
    let no = || "no".to_string();
    let image = || read_image_answer(ANSWER).unwrap();
    assert_eq!(
        failure(ImageStage::Authorizing { input: input(None) }, ImageEvent::Authorized(Err(no()))),
        "no"
    );
    assert_eq!(
        failure(ImageStage::Answering, ImageEvent::Answered(Reply::Cancelled)),
        "Image generation cancelled by user"
    );
    assert_eq!(
        failure(ImageStage::Answering, ImageEvent::Answered(Reply::Failed(no()))),
        "no"
    );
    assert_eq!(
        failure(
            ImageStage::Answering,
            ImageEvent::Answered(Reply::Got { status: 429, body: "slow".to_string() })
        ),
        "image generation failed: 429 Too Many Requests slow"
    );
    assert_eq!(
        failure(ImageStage::Preparing { image: image() }, ImageEvent::DirectoryMade(Err(no()))),
        "no"
    );
    assert_eq!(
        failure(ImageStage::Stamping { image: image() }, ImageEvent::Stamped(Err(no()))),
        "no"
    );
    let downloading = || ImageStage::Downloading { image: image(), file: "f".to_string() };
    assert_eq!(
        failure(downloading(), ImageEvent::Downloaded(Reply::Cancelled)),
        "Image download cancelled by user"
    );
    assert_eq!(
        failure(
            downloading(),
            ImageEvent::Downloaded(Reply::Got { status: 404, body: vec![] })
        ),
        "downloading the generated image failed: 404 Not Found"
    );
    let writing = ImageStage::Writing { image: image(), format: ImageFormat::Png };
    assert_eq!(failure(writing, ImageEvent::Written(Err(no()))), "no");
    let image = GeneratedImage {
        url: "u".to_string(),
        local_path: "p".to_string(),
        ratio: String::new(),
        resolution: String::new(),
    };
    assert_eq!(
        GenerateImageToolOutput::Success(image).content(),
        "Generated image ( ).\nSaved to: p\nURL: u"
    );
    assert_eq!(GenerateImageToolOutput::Error { error: no() }.content(), "no");
}
