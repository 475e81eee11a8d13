use temperature::lm_sensors::{
    format_friendly_names, friendly_name_from, get_lm_sensor_data, get_temperature_data,
    parse_lm_sensors_data, parse_lm_sensors_sensor_type, select_temperatures, LmSensorsDevice,
    LmSensorsSensor, LmSensorsSensorType, TempReading,
};

fn no_filter() -> Option<fn(&str) -> bool> {
    None
}

fn names(readings: &[TempReading]) -> Vec<&str> {
    readings.iter().map(|r| r.name.as_str()).collect()
}

fn values(readings: &[TempReading]) -> Vec<&str> {
    readings.iter().map(|r| r.value.as_str()).collect()
}

fn sensor_names(device: &LmSensorsDevice) -> Vec<&str> {
    device.sensors.iter().map(|s| s.name.as_str()).collect()
}

const REPORT: &str = "\
iwlwifi_1-virtual-0
Adapter: Virtual device
temp1:
  temp1_input: 38.000

k10temp-pci-00c3
Adapter: PCI adapter
Tctl:
  temp1_input 45.500
Tdie:
  temp2_input 44.250
  temp2_max 70.000

nct6798-isa-0290
Adapter: ISA adapter
in0:
  in0_input 1.016
  in0_min 0.000
fan1:
  fan1_input 1200.000
SYSTIN:
  temp1_input 33.000
  temp1_max 80.000
AUXTIN0:
  temp3_max 80.000

nvme-pci-0100
Adapter: PCI adapter
Composite:
  temp1_input 36.850
";

#[test]
fn one_device_with_one_temperature() {
    let devices = parse_lm_sensors_data("dev-0\nAdapter: ISA\ntemp1:\n  temp1_input    45.0\n\n");
    assert_eq!(devices.len(), 1);
    assert_eq!(devices[0].name, "dev-0");
    assert_eq!(devices[0].adapter, "ISA");
    assert_eq!(devices[0].sensors.len(), 1);
    assert_eq!(devices[0].sensors[0].name, "temp1");
    assert_eq!(devices[0].sensors[0].value, "45.0");
    assert_eq!(devices[0].sensors[0].value.parse::<f32>().unwrap_or(0.0), 45.0);
    assert_eq!(devices[0].sensors[0].sensor_type, LmSensorsSensorType::Temp);
}

#[test]
fn value_line_without_input_records_nothing() {
    let devices = parse_lm_sensors_data("dev-0\nAdapter: ISA\ntemp1:\n  temp1_max    80.0\n\n");
    assert_eq!(devices.len(), 1);
    assert_eq!(devices[0].name, "dev-0");
    assert!(devices[0].sensors.is_empty());
}

#[test]
fn value_line_without_input_is_passed_over() {
    let devices = parse_lm_sensors_data(
        "dev-0\nAdapter: ISA\ntemp1:\n  temp1_max    80.0\ntemp2:\n  temp2_input 41.0\n\n",
    );
    assert_eq!(devices.len(), 1);
    assert_eq!(sensor_names(&devices[0]), vec!["temp2"]);
    assert_eq!(devices[0].sensors[0].value, "41.0");
}

#[test]
fn device_without_sensors() {
    let devices = parse_lm_sensors_data("dev-0\n\n");
    assert_eq!(devices.len(), 1);
    assert_eq!(devices[0].name, "dev-0");
    assert_eq!(devices[0].adapter, "");
    assert!(devices[0].sensors.is_empty());

    let devices = parse_lm_sensors_data("dev-0\nAdapter: ISA\n\n");
    assert_eq!(devices.len(), 1);
    assert_eq!(devices[0].adapter, "ISA");
    assert!(devices[0].sensors.is_empty());
}

#[test]
fn device_name_at_the_end_of_the_report() {
    let devices = parse_lm_sensors_data("dev-0");
    assert_eq!(devices.len(), 1);
    assert_eq!(devices[0].name, "dev-0");
    assert_eq!(devices[0].adapter, "");
    assert!(devices[0].sensors.is_empty());
}

#[test]
fn line_after_the_device_name_is_the_adapter_even_if_blank() {
    let devices = parse_lm_sensors_data("dev-0\n\ntemp1:\n  temp1_input 45.0\n\n");
    assert_eq!(devices.len(), 1);
    assert_eq!(devices[0].adapter, "");
    assert_eq!(sensor_names(&devices[0]), vec!["temp1"]);
}

#[test]
fn reading_that_is_no_number_is_kept_as_written() {
    let devices =
        parse_lm_sensors_data("dev-0\nAdapter: ISA\ntemp1:\n  temp1_input    notanumber\n\n");
    assert_eq!(devices.len(), 1);
    assert_eq!(devices[0].sensors.len(), 1);
    assert_eq!(devices[0].sensors[0].name, "temp1");
    assert_eq!(devices[0].sensors[0].value, "notanumber");
    assert_eq!(devices[0].sensors[0].sensor_type, LmSensorsSensorType::Temp);
    assert_eq!(devices[0].sensors[0].value.parse::<f32>().unwrap_or(0.0), 0.0);
}

#[test]
fn value_line_needs_exactly_two_words() {
    let devices = parse_lm_sensors_data(
        "dev-0\nAdapter: ISA\na:\n  temp1_input\nb:\n  temp2_input 1 2\nc:\n temp3_input 3\n",
    );
    assert_eq!(devices.len(), 1);
    assert_eq!(sensor_names(&devices[0]), vec!["c"]);
}

#[test]
fn empty_report_has_no_devices() {
    assert!(parse_lm_sensors_data("").is_empty());
    assert!(parse_lm_sensors_data("\n\n\n").is_empty());
    assert!(parse_lm_sensors_data("error").is_empty());
    assert!(parse_lm_sensors_data("no header here\ntemp1:\n temp1_input 4\n").is_empty());
}

#[test]
fn whole_report() {
    let devices = parse_lm_sensors_data(REPORT);
    assert_eq!(devices.len(), 4);

    assert_eq!(devices[0].name, "iwlwifi_1-virtual-0");
    assert_eq!(devices[0].adapter, "Virtual device");
    assert_eq!(sensor_names(&devices[0]), vec!["temp1"]);
    assert_eq!(devices[0].sensors[0].value, "38.000");
    assert_eq!(devices[0].sensors[0].sensor_type, LmSensorsSensorType::Temp);

    assert_eq!(devices[1].name, "k10temp-pci-00c3");
    assert_eq!(devices[1].adapter, "PCI adapter");
    assert_eq!(sensor_names(&devices[1]), vec!["Tctl", "Tdie"]);
    assert_eq!(devices[1].sensors[0].value, "45.500");
    assert_eq!(devices[1].sensors[1].value, "44.250");

    assert_eq!(devices[2].name, "nct6798-isa-0290");
    assert_eq!(devices[2].adapter, "ISA adapter");
    assert_eq!(sensor_names(&devices[2]), vec!["in0", "fan1", "SYSTIN"]);
    assert_eq!(devices[2].sensors[0].sensor_type, LmSensorsSensorType::Voltage);
    assert_eq!(devices[2].sensors[1].sensor_type, LmSensorsSensorType::Fan);
    assert_eq!(devices[2].sensors[2].sensor_type, LmSensorsSensorType::Temp);
    assert_eq!(devices[2].sensors[1].value, "1200.000");

    assert_eq!(devices[3].name, "nvme-pci-0100");
    assert_eq!(sensor_names(&devices[3]), vec!["Composite"]);
    assert_eq!(devices[3].sensors[0].value, "36.850");
}

#[test]
fn report_with_carriage_returns() {
    let devices = parse_lm_sensors_data("dev-0\r\nAdapter: ISA\r\ntemp1:\r\n temp1_input 45.0\r\n\r\n");
    assert_eq!(devices.len(), 1);
    assert_eq!(devices[0].name, "dev-0");
    assert_eq!(devices[0].adapter, "ISA");
    assert_eq!(sensor_names(&devices[0]), vec!["temp1"]);
    assert_eq!(devices[0].sensors[0].value, "45.0");
}

#[test]
fn adapter_label_is_taken_from_the_start_only() {
    let devices = parse_lm_sensors_data("dev-0\nBus Adapter: ISA\n");
    assert_eq!(devices[0].adapter, "Bus Adapter: ISA");
    let devices = parse_lm_sensors_data("dev-0\nPCI adapter\n");
    assert_eq!(devices[0].adapter, "PCI adapter");
}

#[test]
fn sensor_name_is_trimmed_and_loses_its_colon() {
    let devices = parse_lm_sensors_data("dev-0\nAdapter: ISA\n  Core 0:  \n temp2_input 51.0\n");
    assert_eq!(sensor_names(&devices[0]), vec!["Core 0"]);
    let devices = parse_lm_sensors_data("dev-0\nAdapter: ISA\nodd::\n temp2_input 51.0\n");
    assert_eq!(sensor_names(&devices[0]), vec!["odd:"]);
}

#[test]
fn hyphen_inside_a_section_starts_no_device() {
    let devices =
        parse_lm_sensors_data("dev-0\nAdapter: ISA\nnot-a-device\ntemp1:\n temp1_input 1\n\nb-1\n");
    assert_eq!(devices.len(), 2);
    assert_eq!(devices[0].name, "dev-0");
    assert_eq!(sensor_names(&devices[0]), vec!["temp1"]);
    assert_eq!(devices[1].name, "b-1");
}

#[test]
fn sensor_kinds() {
    assert_eq!(parse_lm_sensors_sensor_type("temp1_input"), LmSensorsSensorType::Temp);
    assert_eq!(parse_lm_sensors_sensor_type("fan2_input"), LmSensorsSensorType::Fan);
    assert_eq!(parse_lm_sensors_sensor_type("in0_input"), LmSensorsSensorType::Voltage);
    assert_eq!(parse_lm_sensors_sensor_type("fan_temp"), LmSensorsSensorType::Temp);
    assert_eq!(parse_lm_sensors_sensor_type("TEMP1"), LmSensorsSensorType::Voltage);
    assert_eq!(parse_lm_sensors_sensor_type(""), LmSensorsSensorType::Voltage);
}

#[test]
fn friendly_names_of_known_devices() {
    assert_eq!(
        format_friendly_names("nvidia-pci-0300".to_string(), "temp1".to_string()),
        "Gpu: temp1"
    );
    assert_eq!(
        format_friendly_names("acpitz-virtual-0".to_string(), "temp1".to_string()),
        "acpitz: temp1"
    );
}

#[test]
fn friendly_name_rules_one_by_one() {
    let cases = [
        ("iwlwifi_1-virtual-0", "Wifi"),
        ("amdgpu-pci-0800", "Gpu"),
        ("nvidia-pci-0300", "Gpu"),
        ("it8688-isa-0a40", "MB"),
        ("k10temp-pci-00c3", "CPU"),
        ("kraken2-hid-3-1", "AIO"),
        ("nvme-pci-0100", "Nvme"),
        ("coretemp-isa-0000", "coretemp"),
        ("nohyphen", "nohyphen"),
        ("-leading", ""),
        ("", ""),
    ];
    for (device, label) in cases {
        assert_eq!(
            format_friendly_names(device.to_string(), "s".to_string()),
            format!("{label}: s")
        );
    }
}

#[test]
fn friendly_name_rules_in_order() {
    assert_eq!(format_friendly_names("wifi-gpu-nvme".to_string(), "t".to_string()), "Wifi: t");
    assert_eq!(format_friendly_names("nvme-k10-it86".to_string(), "t".to_string()), "MB: t");
    assert_eq!(format_friendly_names("nvme-kraken".to_string(), "t".to_string()), "AIO: t");
}

#[test]
fn friendly_name_rules_ignore_case() {
    assert_eq!(format_friendly_names("NVIDIA-PCI-0300".to_string(), "t".to_string()), "Gpu: t");
    assert_eq!(format_friendly_names("IwlWiFi-1".to_string(), "t".to_string()), "Wifi: t");
    assert_eq!(format_friendly_names("ACPITZ-0".to_string(), "t".to_string()), "ACPITZ: t");
}

#[test]
fn friendly_name_from_a_given_lowercase_form() {
    assert_eq!(friendly_name_from("nvidia-pci", "NVIDIA-pci", "temp1"), "Gpu: temp1");
    assert_eq!(friendly_name_from("NVIDIA-pci", "NVIDIA-pci", "temp1"), "NVIDIA: temp1");
    assert_eq!(friendly_name_from("", "a-b", ""), "a: ");
}

#[test]
fn no_output_means_no_devices_and_no_readings() {
    assert!(get_lm_sensor_data(None).is_empty());
    assert!(get_temperature_data(None, &no_filter()).is_empty());
    assert!(get_temperature_data(None, &Some(|_: &str| true)).is_empty());
}

#[test]
fn output_is_read_as_a_report() {
    let devices = get_lm_sensor_data(Some(REPORT));
    assert_eq!(devices.len(), 4);
    assert_eq!(devices[1].name, "k10temp-pci-00c3");
}

#[test]
fn without_a_filter_every_temperature_is_reported() {
    let readings = get_temperature_data(Some(REPORT), &no_filter());
    assert_eq!(
        names(&readings),
        vec!["Wifi: temp1", "CPU: Tctl", "CPU: Tdie", "nct6798: SYSTIN", "Nvme: Composite"]
    );
    assert_eq!(values(&readings), vec!["38.000", "45.500", "44.250", "33.000", "36.850"]);
}

#[test]
fn filter_that_rejects_every_name_leaves_nothing() {
    let reject = Some(|_: &str| false);
    assert!(get_temperature_data(Some(REPORT), &reject).is_empty());
    assert!(select_temperatures(&parse_lm_sensors_data(REPORT), &reject).is_empty());
}

#[test]
fn filter_judges_the_sensor_name_not_the_friendly_name() {
    let keep = Some(|name: &str| name == "Tdie" || name == "Composite");
    let readings = get_temperature_data(Some(REPORT), &keep);
    assert_eq!(names(&readings), vec!["CPU: Tdie", "Nvme: Composite"]);
    assert_eq!(values(&readings), vec!["44.250", "36.850"]);

    let by_friendly_name = Some(|name: &str| name.starts_with("CPU"));
    assert!(get_temperature_data(Some(REPORT), &by_friendly_name).is_empty());
}

#[test]
fn fans_and_voltages_are_never_reported() {
    let keep = Some(|_: &str| true);
    let readings = get_temperature_data(Some(REPORT), &keep);
    assert_eq!(readings.len(), 5);
    assert!(names(&readings).iter().all(|name| !name.ends_with("fan1") && !name.ends_with("in0")));
}

#[test]
fn selection_from_devices_built_by_hand() {
    let devices = vec![
        LmSensorsDevice {
            name: "amdgpu-pci-0800".to_string(),
            adapter: "PCI adapter".to_string(),
            sensors: vec![
                LmSensorsSensor {
                    name: "edge".to_string(),
                    value: "50.0".to_string(),
                    sensor_type: LmSensorsSensorType::Temp,
                },
                LmSensorsSensor {
                    name: "fan1".to_string(),
                    value: "900".to_string(),
                    sensor_type: LmSensorsSensorType::Fan,
                },
            ],
        },
        LmSensorsDevice { name: "empty-0".to_string(), adapter: String::new(), sensors: vec![] },
    ];
    let readings = select_temperatures(&devices, &no_filter());
    assert_eq!(names(&readings), vec!["Gpu: edge"]);
    assert_eq!(values(&readings), vec!["50.0"]);
}
