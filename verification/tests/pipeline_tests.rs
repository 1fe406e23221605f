use proxy::{
    Base64, BoxedClone, IOError, Pipeline, PipelineDirection, PipelineStep, RSult, Read, Stage,
};

/// An in-memory destination that hands back whatever was sent to it.
struct Echo {
    inbox: Vec<u8>,
    started: usize,
}

impl Echo {
    fn new() -> Echo {
        Echo { inbox: Vec::new(), started: 0 }
    }
}

impl Read for Echo {
    fn read(&mut self) -> Result<Vec<u8>, IOError> {
        if self.inbox.is_empty() {
            return Err(IOError::EmptyData);
        }
        Ok(std::mem::take(&mut self.inbox))
    }
}

impl BoxedClone for Echo {
    fn bclone(&self) -> Self {
        Echo::new()
    }
}

impl PipelineStep for Echo {
    fn start(&mut self) {
        self.started += 1;
    }

    fn len(&mut self) -> Result<usize, IOError> {
        Ok(self.inbox.len())
    }

    fn set_pipeline_direction(&mut self, _direction: PipelineDirection) {}

    fn write(&mut self, buf: &[u8]) -> Result<usize, IOError> {
        self.inbox.extend_from_slice(buf);
        Ok(buf.len())
    }
}

#[test]
fn echo_pipeline_returns_what_was_sent() {
    let mut pipeline = Pipeline::new(vec![Echo::new()], Some(1024));
    pipeline.start();
    assert_eq!(pipeline.write(b"ping".to_vec()).unwrap(), 4);
    assert!(pipeline.read_available());
    assert_eq!(pipeline.len().unwrap(), 4);
    assert_eq!(pipeline.read().unwrap(), b"ping".to_vec());
    assert!(!pipeline.read_available());
}

#[test]
fn write_reports_size_that_reached_last_step() {
    let steps = vec![Stage::Codec(Base64::new(Some("fw"))), Stage::Endpoint(Echo::new())];
    let mut pipeline = Pipeline::new(steps, None);
    assert_eq!(pipeline.write(b"AB".to_vec()).unwrap(), 3);
    assert_eq!(pipeline.len().unwrap(), 3);
}

#[test]
fn round_trip_through_codec_and_salt() {
    let steps = vec![
        Stage::Salt(RSult::new(Some("fw-8"))),
        Stage::Codec(Base64::new(Some("fw"))),
        Stage::Endpoint(Echo::new()),
    ];
    let mut pipeline = Pipeline::new(steps, Some(64));
    pipeline.start();
    let payload = b"the quick brown fox\n".to_vec();
    let sent = pipeline.write(payload.clone()).unwrap();
    assert!(sent > payload.len());
    assert!(pipeline.read_available());
    assert_eq!(pipeline.read().unwrap(), payload);
}

#[test]
fn round_trip_of_empty_payload() {
    let steps = vec![Stage::Codec(Base64::new(Some("fw"))), Stage::Endpoint(Echo::new())];
    let mut pipeline = Pipeline::new(steps, Some(64));
    assert_eq!(pipeline.write(Vec::new()).unwrap(), 0);
    assert!(matches!(pipeline.read(), Err(IOError::EmptyData)));
}

#[test]
fn decoding_step_rejects_malformed_input() {
    let steps = vec![Stage::Codec(Base64::new(Some("bw"))), Stage::Endpoint(Echo::new())];
    let mut pipeline = Pipeline::new(steps, Some(64));
    let result = pipeline.write(b"not base64 at all ~~~".to_vec());
    assert!(matches!(result, Err(IOError::ParseError)));
    assert!(!pipeline.read_available());
}

#[test]
fn empty_destination_reports_empty_data() {
    let mut pipeline = Pipeline::new(vec![Echo::new()], Some(16));
    let result = pipeline.read();
    assert!(matches!(result, Err(IOError::EmptyData)));
    assert!(!result.unwrap_err().is_fatal());
}

#[test]
fn clone_is_independent_of_template() {
    let mut template = Pipeline::new(vec![Echo::new()], Some(16));
    template.write(b"stale".to_vec()).unwrap();
    let mut copy = template.clone();
    assert_eq!(copy.steps().len(), 1);
    assert_eq!(copy.buffer_size(), 16);
    assert!(!copy.read_available());
    copy.write(b"fresh".to_vec()).unwrap();
    assert_eq!(template.read().unwrap(), b"stale".to_vec());
    assert_eq!(copy.read().unwrap(), b"fresh".to_vec());
}

#[test]
fn default_buffer_size_is_1024() {
    let pipeline = Pipeline::new(vec![Echo::new()], None);
    assert_eq!(pipeline.buffer_size(), 1024);
}

#[test]
fn size_query_does_not_consume() {
    let mut pipeline = Pipeline::new(vec![Echo::new()], None);
    pipeline.write(b"12345".to_vec()).unwrap();
    assert_eq!(pipeline.len().unwrap(), 5);
    assert_eq!(pipeline.len().unwrap(), 5);
    assert_eq!(pipeline.read().unwrap().len(), 5);
}

#[test]
fn direction_names() {
    assert_eq!(PipelineDirection::Forward.name(), "PipelineDirection::Forward");
    assert_eq!(PipelineDirection::Backward.name(), "PipelineDirection::Backward");
    assert_ne!(PipelineDirection::Forward, PipelineDirection::Backward);
}

#[test]
fn error_names_and_fatality() {
    assert_eq!(IOError::ParseError.name(), "ParseError");
    assert_eq!(IOError::EmptyData.name(), "EmptyData");
    assert_eq!(IOError::InvalidData("x".to_string()).name(), "InvalidData");
    assert!(IOError::ParseError.is_fatal());
    assert!(IOError::InvalidConnection.is_fatal());
    assert!(!IOError::EmptyData.is_fatal());
}

#[test]
fn start_reaches_every_step_once() {
    let steps = vec![
        Stage::Endpoint(Echo::new()),
        Stage::Codec(Base64::new(Some("fw"))),
        Stage::Endpoint(Echo::new()),
    ];
    let mut pipeline = Pipeline::new(steps, None);
    let started = |p: &Pipeline<Stage<Echo>>| -> Vec<usize> {
        p.steps()
            .iter()
            .map(|s| match s {
                Stage::Endpoint(e) => e.started,
                _ => 0,
            })
            .collect()
    };
    assert_eq!(started(&pipeline), vec![0, 0, 0]);
    pipeline.start();
    assert_eq!(started(&pipeline), vec![1, 0, 1]);
    pipeline.write(b"x".to_vec()).unwrap();
    pipeline.read().unwrap();
    assert_eq!(started(&pipeline), vec![1, 0, 1]);
    let copy = pipeline.clone();
    assert_eq!(copy.steps().len(), 3);
    assert_eq!(started(&copy), vec![0, 0, 0]);
}

#[test]
fn backward_data_passes_every_step_in_reverse() {
    let mut last = Echo::new();
    last.inbox = b"QUI".to_vec();
    let steps = vec![
        Stage::Salt(RSult::new(Some("bw-0"))),
        Stage::Codec(Base64::new(Some("fw"))),
        Stage::Endpoint(last),
    ];
    let mut pipeline = Pipeline::new(steps, None);
    assert_eq!(pipeline.read().unwrap(), b"AB".to_vec());
}

#[test]
fn transform_scenario() {
    let steps = vec![Stage::Codec(Base64::new(Some("fw"))), Stage::Endpoint(Echo::new())];
    let mut pipeline = Pipeline::new(steps, Some(1024));
    pipeline.start();
    assert_eq!(pipeline.write(b"AB".to_vec()).unwrap(), 3);
    // the destination echoes the encoded bytes; the backward pass decodes them
    assert_eq!(pipeline.len().unwrap(), 3);
    assert_eq!(pipeline.read().unwrap(), b"AB".to_vec());
}

#[test]
fn write_reports_what_the_last_step_reported() {
    let mut pipeline = Pipeline::new(vec![Base64::new(Some("fw"))], None);
    assert_eq!(pipeline.write(b"AB".to_vec()).unwrap(), 3);
    let mut pipeline = Pipeline::new(vec![RSult::new(Some("fw-4"))], None);
    assert_eq!(pipeline.write(b"AB".to_vec()).unwrap(), 6);
    assert_eq!(pipeline.write(b"C".to_vec()).unwrap(), 11);
    let steps: Vec<Stage<Echo>> =
        vec![Stage::Codec(Base64::new(Some("fw"))), Stage::Salt(RSult::new(Some("bw-1")))];
    let mut pipeline = Pipeline::new(steps, None);
    assert_eq!(pipeline.write(b"AB".to_vec()).unwrap(), 2);
}
