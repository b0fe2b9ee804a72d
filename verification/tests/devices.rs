use audio_pipeline::devices::find_output_device_by_uid;
use audio_pipeline::devices::list_input_devices;
use audio_pipeline::devices::list_output_devices;
use audio_pipeline::devices::requested_input;
use audio_pipeline::devices::requested_output;
use audio_pipeline::devices::AudioDeviceInfo;
use audio_pipeline::devices::OutputDevice;

fn pairs(list: &[AudioDeviceInfo]) -> Vec<(&str, &str)> {
    list.iter().map(|d| (d.id.as_str(), d.name.as_str())).collect()
}

fn device(uid: &str, name: &str, output_buffers: usize) -> OutputDevice {
    OutputDevice { uid: uid.to_string(), name: name.to_string(), output_buffers }
}

#[test]
fn default_microphone_comes_first() {
    assert_eq!(pairs(&list_input_devices(&vec![])), vec![("default", "Default Microphone")]);
    let names = vec!["Built-in".to_string(), "USB Mic".to_string(), "Built-in".to_string()];
    assert_eq!(
        pairs(&list_input_devices(&names)),
        vec![
            ("default", "Default Microphone"),
            ("Built-in", "Built-in"),
            ("USB Mic", "USB Mic"),
            ("Built-in", "Built-in"),
        ]
    );
}

#[test]
fn output_list_keeps_devices_with_buffers_and_uid() {
    let devices = vec![
        device("spk", "Speakers", 2),
        device("mic", "Microphone", 0),
        device("", "Nameless", 1),
        device("hdmi", "", 1),
    ];
    assert_eq!(pairs(&list_output_devices(&devices)), vec![("spk", "Speakers"), ("hdmi", "")]);
    assert!(list_output_devices(&vec![]).is_empty());
}

#[test]
fn finds_the_first_playing_device_with_the_uid() {
    let devices = vec![
        device("a", "input only", 0),
        device("b", "first", 1),
        device("a", "second", 2),
        device("a", "third", 1),
    ];
    assert_eq!(find_output_device_by_uid(&devices, &"a".to_string()), Some(2));
    assert_eq!(find_output_device_by_uid(&devices, &"b".to_string()), Some(1));
    assert_eq!(find_output_device_by_uid(&devices, &"c".to_string()), None);
    assert_eq!(find_output_device_by_uid(&vec![], &"a".to_string()), None);
}

#[test]
fn default_identifiers_ask_for_the_default_device() {
    assert_eq!(requested_input(None), None);
    assert_eq!(requested_input(Some("default".to_string())), None);
    assert_eq!(requested_input(Some("".to_string())), Some("".to_string()));
    assert_eq!(requested_input(Some("USB Mic".to_string())), Some("USB Mic".to_string()));
    assert_eq!(requested_input(Some("Default".to_string())), Some("Default".to_string()));

    assert_eq!(requested_output(None), None);
    assert_eq!(requested_output(Some("default".to_string())), None);
    assert_eq!(requested_output(Some("".to_string())), None);
    assert_eq!(requested_output(Some("spk".to_string())), Some("spk".to_string()));
    assert_eq!(requested_output(Some("defaults".to_string())), Some("defaults".to_string()));
}
