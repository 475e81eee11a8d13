//! Reading the report of the `sensors` tool: its devices and their sensors,
//! the names under which sensors are shown, and the choice of the
//! temperature readings among them.

use vstd::prelude::*;
use vstd::string::StringExecFns;
use crate::chars;
use crate::text;

verus! {

/// What a sensor measures.
#[derive(Clone, Copy, Debug, PartialEq, Eq, Structural)]
pub enum LmSensorsSensorType {
    Temp,
    Fan,
    Voltage,
}

/// One sensor of a device. `value` is the reading as the report writes it.
#[derive(Debug)]
pub struct LmSensorsSensor {
    pub name: String,
    pub value: String,
    pub sensor_type: LmSensorsSensorType,
}

/// One device of a report, with its sensors in the order of the report.
#[derive(Debug)]
pub struct LmSensorsDevice {
    pub name: String,
    pub adapter: String,
    pub sensors: Vec<LmSensorsSensor>,
}

/// A sensor as contracts see it.
pub struct SensorView {
    pub name: Seq<char>,
    pub value: Seq<char>,
    pub sensor_type: LmSensorsSensorType,
}

/// A device as contracts see it.
pub struct DeviceView {
    pub name: Seq<char>,
    pub adapter: Seq<char>,
    pub sensors: Seq<SensorView>,
}

impl DeepView for LmSensorsSensor {
    type V = SensorView;

    open spec fn deep_view(&self) -> SensorView {
        SensorView { name: self.name@, value: self.value@, sensor_type: self.sensor_type }
    }
}

impl DeepView for LmSensorsDevice {
    type V = DeviceView;

    open spec fn deep_view(&self) -> DeviceView {
        DeviceView {
            name: self.name@,
            adapter: self.adapter@,
            sensors: self.sensors.deep_view(),
        }
    }
}

/// The kind of the sensor whose reading is labelled `label`: a temperature
/// where the label holds "temp", else a fan where it holds "fan", else a
/// voltage.
pub open spec fn sensor_type_of(label: Seq<char>) -> LmSensorsSensorType {
    if chars::contains(label, "temp"@) {
        LmSensorsSensorType::Temp
    } else if chars::contains(label, "fan"@) {
        LmSensorsSensorType::Fan
    } else {
        LmSensorsSensorType::Voltage
    }
}

/// Tells the kind of a sensor from the label of its reading.
pub fn parse_lm_sensors_sensor_type(sensor_name: &str) -> (kind: LmSensorsSensorType)
    ensures
        kind == sensor_type_of(sensor_name@),
{
    if text::contains(sensor_name, "temp") {
        LmSensorsSensorType::Temp
    } else if text::contains(sensor_name, "fan") {
        LmSensorsSensorType::Fan
    } else {
        LmSensorsSensorType::Voltage
    }
}

/// The short label of a device, from its name `device_name` and the
/// lowercase form `lowered` of that name. The rules are tried in this order
/// and the first whose keyword stands in `lowered` gives the label; where
/// none does, the label is what stands in the name before its first hyphen.
pub open spec fn device_label(lowered: Seq<char>, device_name: Seq<char>) -> Seq<char> {
    if chars::contains(lowered, "wifi"@) {
        "Wifi"@
    } else if chars::contains(lowered, "gpu"@) {
        "Gpu"@
    } else if chars::contains(lowered, "nvidia"@) {
        "Gpu"@
    } else if chars::contains(lowered, "it86"@) {
        "MB"@
    } else if chars::contains(lowered, "k10"@) {
        "CPU"@
    } else if chars::contains(lowered, "kraken"@) {
        "AIO"@
    } else if chars::contains(lowered, "nvme"@) {
        "Nvme"@
    } else {
        chars::before_first(device_name, '-')
    }
}

/// The name under which a sensor is shown: the label of its device, a colon
/// and a space, and the sensor's own name.
pub open spec fn friendly_name(
    lowered: Seq<char>,
    device_name: Seq<char>,
    sensor_name: Seq<char>,
) -> Seq<char> {
    device_label(lowered, device_name) + ": "@ + sensor_name
}

/// A friendly name is never empty, whatever the names it is made of.
pub proof fn lemma_friendly_name_not_empty(
    lowered: Seq<char>,
    device_name: Seq<char>,
    sensor_name: Seq<char>,
)
    ensures
        friendly_name(lowered, device_name, sensor_name).len() >= 2,
{
    reveal_strlit(": ");
}

/// The label of a device, given the lowercase form of its name.
fn device_label_from(lowered: &str, device_name: &str) -> (label: String)
    ensures
        label@ == device_label(lowered@, device_name@),
{
    if text::contains(lowered, "wifi") {
        "Wifi".to_owned()
    } else if text::contains(lowered, "gpu") {
        "Gpu".to_owned()
    } else if text::contains(lowered, "nvidia") {
        "Gpu".to_owned()
    } else if text::contains(lowered, "it86") {
        "MB".to_owned()
    } else if text::contains(lowered, "k10") {
        "CPU".to_owned()
    } else if text::contains(lowered, "kraken") {
        "AIO".to_owned()
    } else if text::contains(lowered, "nvme") {
        "Nvme".to_owned()
    } else {
        text::before_first(device_name, '-').to_owned()
    }
}

/// The name under which the sensor `sensor_name` of the device
/// `device_name` is shown, given the lowercase form `lowered` of the
/// device's name.
pub fn friendly_name_from(lowered: &str, device_name: &str, sensor_name: &str) -> (name: String)
    ensures
        name@ == friendly_name(lowered@, device_name@, sensor_name@),
        name@.len() > 0,
{
    proof {
        lemma_friendly_name_not_empty(lowered@, device_name@, sensor_name@);
    }
    device_label_from(lowered, device_name).concat(": ").concat(sensor_name)
}

/// The name under which the sensor `sensor_name` of the device
/// `device_name` is shown.
pub fn format_friendly_names(device_name: String, sensor_name: String) -> (name: String)
    ensures
        name@ == friendly_name(text::lowercase(device_name@), device_name@, sensor_name@),
        name@.len() > 0,
{
    let lowered = text::to_lowercase(device_name.as_str());
    friendly_name_from(lowered.as_str(), device_name.as_str(), sensor_name.as_str())
}

/// A line names a device when it holds a hyphen.
pub open spec fn is_device_header(line: Seq<char>) -> bool {
    line.contains('-')
}

/// The adapter that the line after a device's name gives: the line without
/// the label "Adapter: " at its start.
pub open spec fn adapter_of(line: Seq<char>) -> Seq<char> {
    chars::strip_prefix(line, "Adapter: "@)
}

/// A line names a sensor when, whitespace around it apart, it ends in a
/// colon.
pub open spec fn is_sensor_header(line: Seq<char>) -> bool {
    chars::trim(line).len() > 0 && chars::trim(line).last() == ':'
}

/// The name that a sensor's line gives: the line without the whitespace
/// around it and without the colon at its end.
pub open spec fn sensor_name_of(line: Seq<char>) -> Seq<char> {
    chars::strip_last(chars::trim(line), ':')
}

/// What the line `value_line`, which follows the line of the sensor `name`,
/// records for it. A sensor is recorded where the line holds "input" and
/// consists of two words: the label of the reading, which tells the
/// sensor's kind, and the reading itself.
pub open spec fn sensor_entry(name: Seq<char>, value_line: Seq<char>) -> Option<SensorView> {
    let words = chars::split_whitespace(value_line);
    if chars::contains(value_line, "input"@) && words.len() == 2 {
        Some(SensorView { name, value: words[1], sensor_type: sensor_type_of(words[0]) })
    } else {
        None
    }
}

/// The sensors, none or one, that an entry records.
pub open spec fn recorded(entry: Option<SensorView>) -> Seq<SensorView> {
    match entry {
        Some(sensor) => seq![sensor],
        None => Seq::empty(),
    }
}

/// A section of sensors: the sensors it records, and the line at which the
/// search for the next device goes on.
pub struct Section {
    pub sensors: Seq<SensorView>,
    pub end: int,
}

/// The section of sensors that starts at line `pos`. It ends behind the
/// first blank line, or with the report. Before that, a line that names a
/// sensor takes the line after it as the line of its value, whatever that
/// line holds; any other line is passed over.
pub open spec fn sensor_section(lines: Seq<Seq<char>>, pos: int) -> Section
    decreases lines.len() - pos,
{
    if pos < 0 || pos >= lines.len() {
        Section { sensors: Seq::empty(), end: lines.len() as int }
    } else if chars::is_blank(lines[pos]) {
        Section { sensors: Seq::empty(), end: pos + 1 }
    } else if is_sensor_header(lines[pos]) && pos + 1 < lines.len() {
        let rest = sensor_section(lines, pos + 2);
        Section {
            sensors: recorded(sensor_entry(sensor_name_of(lines[pos]), lines[pos + 1]))
                + rest.sensors,
            end: rest.end,
        }
    } else {
        sensor_section(lines, pos + 1)
    }
}

/// The devices that the lines from `pos` on describe. A line that names a
/// device starts one: the line after it gives the adapter, and the section
/// of sensors follows. Lines before the first device and between sections
/// are passed over.
pub open spec fn devices_from(lines: Seq<Seq<char>>, pos: int) -> Seq<DeviceView>
    decreases lines.len() - pos,
    via devices_from_decreases
{
    if pos < 0 || pos >= lines.len() {
        Seq::empty()
    } else if is_device_header(lines[pos]) {
        let adapter = if pos + 1 < lines.len() {
            adapter_of(lines[pos + 1])
        } else {
            Seq::empty()
        };
        let section = sensor_section(lines, pos + 2);
        seq![DeviceView { name: lines[pos], adapter, sensors: section.sensors }] + devices_from(
            lines,
            section.end,
        )
    } else {
        devices_from(lines, pos + 1)
    }
}

#[via_fn]
proof fn devices_from_decreases(lines: Seq<Seq<char>>, pos: int) {
    if 0 <= pos < lines.len() {
        lemma_section_end(lines, pos + 2);
    }
}

/// A section ends at or behind the line where it starts, and within the
/// report where it starts there.
pub proof fn lemma_section_end(lines: Seq<Seq<char>>, pos: int)
    ensures
        sensor_section(lines, pos).end <= lines.len(),
        pos <= lines.len() ==> pos <= sensor_section(lines, pos).end,
        pos < lines.len() ==> pos < sensor_section(lines, pos).end,
    decreases lines.len() - pos,
{
    if pos < 0 || pos >= lines.len() {
    } else if chars::is_blank(lines[pos]) {
    } else if is_sensor_header(lines[pos]) && pos + 1 < lines.len() {
        lemma_section_end(lines, pos + 2);
    } else {
        lemma_section_end(lines, pos + 1);
    }
}

/// A sensor whose value line does not hold "input" is not recorded: the
/// section reads on behind that line as if the sensor were not there.
pub proof fn lemma_value_line_without_input(lines: Seq<Seq<char>>, pos: int)
    requires
        0 <= pos,
        pos + 1 < lines.len(),
        !chars::is_blank(lines[pos]),
        is_sensor_header(lines[pos]),
        !chars::contains(lines[pos + 1], "input"@),
    ensures
        sensor_entry(sensor_name_of(lines[pos]), lines[pos + 1]) is None,
        sensor_section(lines, pos) == sensor_section(lines, pos + 2),
{
    let rest = sensor_section(lines, pos + 2);
    assert(Seq::<SensorView>::empty() + rest.sensors =~= rest.sensors);
}

/// A value line of two words that holds "input" records its sensor with the
/// second word as the reading, whatever that word is: a reading that is no
/// number does not stop the report from being read.
pub proof fn lemma_value_is_kept_as_written(name: Seq<char>, value_line: Seq<char>)
    requires
        chars::contains(value_line, "input"@),
        chars::split_whitespace(value_line).len() == 2,
    ensures
        sensor_entry(name, value_line) == Some(
            SensorView {
                name,
                value: chars::split_whitespace(value_line)[1],
                sensor_type: sensor_type_of(chars::split_whitespace(value_line)[0]),
            },
        ),
{
}

/// A device whose name and adapter lines are followed by a blank line, or by
/// nothing, has no sensors; it is a device all the same.
pub proof fn lemma_device_without_sensors(lines: Seq<Seq<char>>, pos: int)
    requires
        0 <= pos < lines.len(),
        is_device_header(lines[pos]),
        pos + 2 >= lines.len() || chars::is_blank(lines[pos + 2]),
    ensures
        devices_from(lines, pos).len() >= 1,
        devices_from(lines, pos)[0].name == lines[pos],
        devices_from(lines, pos)[0].sensors.len() == 0,
{
}

/// The devices that the report `report` describes.
pub open spec fn report_devices(report: Seq<char>) -> Seq<DeviceView> {
    devices_from(chars::lines(report), 0)
}

/// Reads what the line after a sensor's name records for that sensor.
fn parse_sensor_entry(name: &str, value_line: &str) -> (entry: Option<LmSensorsSensor>)
    ensures
        entry.deep_view() == sensor_entry(name@, value_line@),
{
    if !text::contains(value_line, "input") {
        return None;
    }
    let words = text::split_whitespace(value_line);
    if words.len() != 2 {
        return None;
    }
    Some(
        LmSensorsSensor {
            name: name.to_owned(),
            value: words[1].to_owned(),
            sensor_type: parse_lm_sensors_sensor_type(words[0]),
        },
    )
}

/// Reads the section of sensors that starts at line `start`, and tells at
/// which line the search for the next device goes on.
fn parse_sensor_section(lines: &Vec<&str>, start: usize) -> (found: (Vec<LmSensorsSensor>, usize))
    requires
        start <= lines.len(),
    ensures
        found.0.deep_view() == sensor_section(lines.deep_view(), start as int).sensors,
        found.1 == sensor_section(lines.deep_view(), start as int).end,
        start <= found.1 <= lines.len(),
{
    let ghost all = lines.deep_view();
    let mut sensors: Vec<LmSensorsSensor> = Vec::new();
    let mut pos: usize = start;
    assert(sensors.deep_view() =~= Seq::<SensorView>::empty());
    loop
        invariant_except_break
            all == lines.deep_view(),
            start <= pos <= lines.len(),
            sensor_section(all, start as int).sensors == sensors.deep_view() + sensor_section(
                all,
                pos as int,
            ).sensors,
            sensor_section(all, start as int).end == sensor_section(all, pos as int).end,
        ensures
            all == lines.deep_view(),
            start <= pos <= lines.len(),
            sensor_section(all, start as int).sensors == sensors.deep_view(),
            sensor_section(all, start as int).end == pos,
        decreases lines.len() - pos,
    {
        if pos >= lines.len() {
            assert(sensors.deep_view() + Seq::<SensorView>::empty() =~= sensors.deep_view());
            break;
        }
        let line = lines[pos];
        assert(all[pos as int] == line@);
        if text::is_blank(line) {
            assert(sensors.deep_view() + Seq::<SensorView>::empty() =~= sensors.deep_view());
            pos += 1;
            break;
        }
        let trimmed = text::trim(line);
        if text::ends_with_char(trimmed, ':') && pos + 1 < lines.len() {
            let name = text::strip_last(trimmed, ':');
            let value_line = lines[pos + 1];
            assert(all[pos + 1] == value_line@);
            let ghost before = sensors.deep_view();
            let ghost rest = sensor_section(all, pos + 2).sensors;
            match parse_sensor_entry(name, value_line) {
                Some(sensor) => {
                    sensors.push(sensor);
                    assert(sensors.deep_view() =~= before + seq![sensor.deep_view()]);
                    assert(before + (seq![sensor.deep_view()] + rest) =~= sensors.deep_view()
                        + rest);
                },
                None => {
                    assert(before + (Seq::<SensorView>::empty() + rest) =~= before + rest);
                },
            }
            pos += 2;
        } else {
            pos += 1;
        }
    }
    (sensors, pos)
}

/// Reads the devices and their sensors from the report `data` of the
/// `sensors` tool.
pub fn parse_lm_sensors_data(data: &str) -> (devices: Vec<LmSensorsDevice>)
    ensures
        devices.deep_view() == report_devices(data@),
{
    let lines = text::lines(data);
    let ghost all = lines.deep_view();
    let mut devices: Vec<LmSensorsDevice> = Vec::new();
    let mut pos: usize = 0;
    assert(devices.deep_view() =~= Seq::<DeviceView>::empty());
    while pos < lines.len()
        invariant
            all == lines.deep_view(),
            pos <= lines.len(),
            devices_from(all, 0) == devices.deep_view() + devices_from(all, pos as int),
        decreases lines.len() - pos,
    {
        let line = lines[pos];
        assert(all[pos as int] == line@);
        if text::contains_char(line, '-') {
            let adapter = if pos + 1 < lines.len() {
                assert(all[pos + 1] == lines[pos + 1]@);
                text::strip_prefix(lines[pos + 1], "Adapter: ").to_owned()
            } else {
                String::new()
            };
            let start: usize = if pos + 1 < lines.len() {
                pos + 2
            } else {
                lines.len()
            };
            let (sensors, end) = parse_sensor_section(&lines, start);
            let ghost before = devices.deep_view();
            let device = LmSensorsDevice { name: line.to_owned(), adapter, sensors };
            devices.push(device);
            proof {
                let rest = devices_from(all, end as int);
                assert(devices.deep_view() =~= before + seq![device.deep_view()]);
                assert(before + (seq![device.deep_view()] + rest) =~= devices.deep_view() + rest);
            }
            pos = end;
        } else {
            pos += 1;
        }
    }
    assert(devices.deep_view() + Seq::<DeviceView>::empty() =~= devices.deep_view());
    devices
}

/// One temperature reading: the name under which it is shown, and its
/// value in degrees Celsius as the report writes it.
#[derive(Debug)]
pub struct TempReading {
    pub name: String,
    pub value: String,
}

/// A temperature reading as contracts see it.
pub struct ReadingView {
    pub name: Seq<char>,
    pub value: Seq<char>,
}

impl DeepView for TempReading {
    type V = ReadingView;

    open spec fn deep_view(&self) -> ReadingView {
        ReadingView { name: self.name@, value: self.value@ }
    }
}

/// A temperature sensor of a report: the name by which a filter judges it,
/// and the reading that is reported where the filter keeps it.
pub struct Candidate {
    pub sensor_name: Seq<char>,
    pub reading: ReadingView,
}

/// The candidate that the temperature sensor `sensor` of the device
/// `device_name` makes.
pub open spec fn candidate_of(device_name: Seq<char>, sensor: SensorView) -> Candidate {
    Candidate {
        sensor_name: sensor.name,
        reading: ReadingView {
            name: friendly_name(text::lowercase(device_name), device_name, sensor.name),
            value: sensor.value,
        },
    }
}

/// The candidates among the first `upto` sensors of `device`: its
/// temperature sensors, in order.
pub open spec fn device_candidates(device: DeviceView, upto: int) -> Seq<Candidate>
    decreases upto,
{
    if upto <= 0 {
        Seq::empty()
    } else {
        let sensor = device.sensors[upto - 1];
        let earlier = device_candidates(device, upto - 1);
        if sensor.sensor_type == LmSensorsSensorType::Temp {
            earlier.push(candidate_of(device.name, sensor))
        } else {
            earlier
        }
    }
}

/// The candidates of the first `upto` devices, device after device.
pub open spec fn candidates_upto(devices: Seq<DeviceView>, upto: int) -> Seq<Candidate>
    decreases upto,
{
    if upto <= 0 {
        Seq::empty()
    } else {
        let device = devices[upto - 1];
        candidates_upto(devices, upto - 1) + device_candidates(device, device.sensors.len() as int)
    }
}

/// All candidates of `devices`.
pub open spec fn candidates(devices: Seq<DeviceView>) -> Seq<Candidate> {
    candidates_upto(devices, devices.len() as int)
}

/// `answer` is an answer that `filter` may give for the sensor name `name`.
/// Without a filter the only answer is yes.
pub open spec fn may_answer<F: Fn(&str) -> bool>(
    filter: Option<F>,
    name: Seq<char>,
    answer: bool,
) -> bool {
    match filter {
        None => answer,
        Some(keep) => exists|s: &str| s@ == name && #[trigger] call_ensures(keep, (s,), answer),
    }
}

/// `filter` keeps no name at all.
pub open spec fn rejects_all<F: Fn(&str) -> bool>(filter: Option<F>) -> bool {
    match filter {
        None => false,
        Some(keep) => forall|s: &str| !#[trigger] call_ensures(keep, (s,), true),
    }
}

/// `out` is what is left of `candidates` after `filter` has judged each of
/// them by its sensor name: the readings of those it kept, in their order.
pub open spec fn is_selection<F: Fn(&str) -> bool>(
    filter: Option<F>,
    candidates: Seq<Candidate>,
    out: Seq<ReadingView>,
) -> bool
    decreases candidates.len(),
{
    if candidates.len() == 0 {
        out.len() == 0
    } else {
        let last = candidates.last();
        ||| {
            &&& may_answer(filter, last.sensor_name, false)
            &&& is_selection(filter, candidates.drop_last(), out)
        }
        ||| {
            &&& may_answer(filter, last.sensor_name, true)
            &&& out.len() > 0
            &&& out.last() == last.reading
            &&& is_selection(filter, candidates.drop_last(), out.drop_last())
        }
    }
}

/// The readings of `candidates`, in order.
pub open spec fn readings_of(candidates: Seq<Candidate>) -> Seq<ReadingView> {
    candidates.map_values(|c: Candidate| c.reading)
}

/// The devices that the output `output` of the `sensors` tool describes;
/// none where the tool gave no output.
pub open spec fn output_devices(output: Option<Seq<char>>) -> Seq<DeviceView> {
    match output {
        Some(report) => report_devices(report),
        None => Seq::empty(),
    }
}

/// A filter that keeps no name leaves no reading.
pub proof fn lemma_rejecting_filter_leaves_nothing<F: Fn(&str) -> bool>(
    filter: Option<F>,
    candidates: Seq<Candidate>,
    out: Seq<ReadingView>,
)
    requires
        rejects_all(filter),
        is_selection(filter, candidates, out),
    ensures
        out.len() == 0,
    decreases candidates.len(),
{
    if candidates.len() > 0 {
        lemma_rejecting_filter_leaves_nothing(filter, candidates.drop_last(), out);
    }
}

/// Without a filter every candidate is reported.
pub proof fn lemma_no_filter_keeps_all<F: Fn(&str) -> bool>(
    filter: Option<F>,
    candidates: Seq<Candidate>,
    out: Seq<ReadingView>,
)
    requires
        filter is None,
        is_selection(filter, candidates, out),
    ensures
        out == readings_of(candidates),
    decreases candidates.len(),
{
    if candidates.len() > 0 {
        let shorter = out.drop_last();
        lemma_no_filter_keeps_all(filter, candidates.drop_last(), shorter);
        assert(shorter.len() == candidates.len() - 1);
        assert forall|i: int| 0 <= i < out.len() implies out[i] == readings_of(candidates)[i] by {
            if i < shorter.len() {
                assert(out[i] == shorter[i]);
                assert(shorter[i] == candidates.drop_last()[i].reading);
            }
        }
        assert(out =~= readings_of(candidates));
    } else {
        assert(out =~= readings_of(candidates));
    }
}

/// `filter` gives one answer for each name.
pub open spec fn answers_are_fixed<F: Fn(&str) -> bool>(filter: Option<F>) -> bool {
    forall|name: Seq<char>, a: bool, b: bool|
        #[trigger] may_answer(filter, name, a) && #[trigger] may_answer(filter, name, b) ==> a == b
}

/// Where the filter gives one answer for each name, the candidates and the
/// filter determine the readings that are reported.
pub proof fn lemma_selection_is_determined<F: Fn(&str) -> bool>(
    filter: Option<F>,
    candidates: Seq<Candidate>,
    first: Seq<ReadingView>,
    second: Seq<ReadingView>,
)
    requires
        answers_are_fixed(filter),
        is_selection(filter, candidates, first),
        is_selection(filter, candidates, second),
    ensures
        first == second,
    decreases candidates.len(),
{
    if candidates.len() == 0 {
        assert(first =~= second);
    } else {
        let name = candidates.last().sensor_name;
        if may_answer(filter, name, true) {
            assert(!may_answer(filter, name, false));
            lemma_selection_is_determined(
                filter,
                candidates.drop_last(),
                first.drop_last(),
                second.drop_last(),
            );
            assert(first =~= first.drop_last().push(first.last()));
            assert(second =~= second.drop_last().push(second.last()));
        } else {
            lemma_selection_is_determined(filter, candidates.drop_last(), first, second);
        }
    }
}

/// Every reading that a selection reports has a name that is not empty.
pub proof fn lemma_selected_names_not_empty<F: Fn(&str) -> bool>(
    filter: Option<F>,
    devices: Seq<DeviceView>,
    out: Seq<ReadingView>,
)
    requires
        is_selection(filter, candidates(devices), out),
    ensures
        forall|i: int| 0 <= i < out.len() ==> (#[trigger] out[i]).name.len() > 0,
{
    lemma_candidate_names_not_empty(devices, devices.len() as int);
    lemma_selection_keeps(filter, candidates(devices), out);
}

/// Every candidate of the first `upto` devices has a reading whose name is
/// not empty.
proof fn lemma_candidate_names_not_empty(devices: Seq<DeviceView>, upto: int)
    ensures
        forall|i: int|
            0 <= i < candidates_upto(devices, upto).len() ==> (#[trigger] candidates_upto(
                devices,
                upto,
            )[i]).reading.name.len() > 0,
    decreases upto,
{
    if upto > 0 {
        let device = devices[upto - 1];
        let earlier = candidates_upto(devices, upto - 1);
        let own = device_candidates(device, device.sensors.len() as int);
        lemma_candidate_names_not_empty(devices, upto - 1);
        lemma_device_candidate_names_not_empty(device, device.sensors.len() as int);
        assert forall|i: int| 0 <= i < (earlier + own).len() implies (#[trigger] (earlier
            + own)[i]).reading.name.len() > 0 by {
            if i < earlier.len() {
                assert((earlier + own)[i] == earlier[i]);
            } else {
                assert((earlier + own)[i] == own[i - earlier.len()]);
            }
        }
    }
}

/// Every candidate among the first `upto` sensors of `device` has a reading
/// whose name is not empty.
proof fn lemma_device_candidate_names_not_empty(device: DeviceView, upto: int)
    ensures
        forall|i: int|
            0 <= i < device_candidates(device, upto).len() ==> (#[trigger] device_candidates(
                device,
                upto,
            )[i]).reading.name.len() > 0,
    decreases upto,
{
    if upto > 0 {
        let sensor = device.sensors[upto - 1];
        let earlier = device_candidates(device, upto - 1);
        let added = candidate_of(device.name, sensor);
        lemma_device_candidate_names_not_empty(device, upto - 1);
        lemma_friendly_name_not_empty(text::lowercase(device.name), device.name, sensor.name);
        assert forall|i: int| 0 <= i < earlier.push(added).len() implies (#[trigger] earlier.push(
            added,
        )[i]).reading.name.len() > 0 by {
            if i < earlier.len() {
                assert(earlier.push(added)[i] == earlier[i]);
            }
        }
    }
}

/// Every reading of a selection is the reading of one of the candidates.
proof fn lemma_selection_keeps<F: Fn(&str) -> bool>(
    filter: Option<F>,
    candidates: Seq<Candidate>,
    out: Seq<ReadingView>,
)
    requires
        is_selection(filter, candidates, out),
    ensures
        forall|i: int|
            0 <= i < out.len() ==> exists|k: int|
                0 <= k < candidates.len() && (#[trigger] candidates[k]).reading == #[trigger] out[i],
    decreases candidates.len(),
{
    if candidates.len() > 0 {
        let last = candidates.last();
        let shorter = candidates.drop_last();
        if may_answer(filter, last.sensor_name, false) && is_selection(filter, shorter, out) {
            lemma_selection_keeps(filter, shorter, out);
            assert forall|i: int| 0 <= i < out.len() implies exists|k: int|
                0 <= k < candidates.len() && (#[trigger] candidates[k]).reading
                    == #[trigger] out[i] by {
                let k = choose|k: int|
                    0 <= k < shorter.len() && (#[trigger] shorter[k]).reading == out[i];
                assert(candidates[k] == shorter[k]);
            }
        } else {
            let fewer = out.drop_last();
            lemma_selection_keeps(filter, shorter, fewer);
            assert forall|i: int| 0 <= i < out.len() implies exists|k: int|
                0 <= k < candidates.len() && (#[trigger] candidates[k]).reading
                    == #[trigger] out[i] by {
                if i < fewer.len() {
                    assert(out[i] == fewer[i]);
                    let k = choose|k: int|
                        0 <= k < shorter.len() && (#[trigger] shorter[k]).reading == fewer[i];
                    assert(candidates[k] == shorter[k]);
                } else {
                    assert(candidates[candidates.len() - 1].reading == out[i]);
                }
            }
        }
    }
}

/// Asks `filter` whether the sensor `name` is to be reported.
fn ask_filter<F: Fn(&str) -> bool>(filter: &Option<F>, name: &str) -> (answer: bool)
    requires
        filter matches Some(keep) ==> forall|s: &str| #[trigger] call_requires(*keep, (s,)),
    ensures
        may_answer(*filter, name@, answer),
{
    match filter {
        Some(keep) => keep(name),
        None => true,
    }
}

/// The devices that the output of the `sensors` tool describes. `output` is
/// `None` where the tool could not be run or what it printed is no text:
/// there are no devices then.
pub fn get_lm_sensor_data(output: Option<&str>) -> (devices: Vec<LmSensorsDevice>)
    ensures
        devices.deep_view() == output_devices(output.deep_view()),
        output is None ==> devices.len() == 0,
{
    match output {
        Some(report) => parse_lm_sensors_data(report),
        None => {
            let devices: Vec<LmSensorsDevice> = Vec::new();
            assert(devices.deep_view() =~= Seq::<DeviceView>::empty());
            devices
        },
    }
}

/// Chooses the temperature readings among the sensors of `devices`: those
/// of its temperature sensors whose name `filter` keeps, in the order of the
/// report, each under its friendly name.
pub fn select_temperatures<F: Fn(&str) -> bool>(
    devices: &Vec<LmSensorsDevice>,
    filter: &Option<F>,
) -> (readings: Vec<TempReading>)
    requires
        filter matches Some(keep) ==> forall|s: &str| #[trigger] call_requires(*keep, (s,)),
    ensures
        is_selection(*filter, candidates(devices.deep_view()), readings.deep_view()),
        rejects_all(*filter) ==> readings.len() == 0,
        filter is None ==> readings.deep_view() == readings_of(candidates(devices.deep_view())),
        forall|i: int| 0 <= i < readings.len() ==> (#[trigger] readings[i]).name@.len() > 0,
{
    let ghost all = devices.deep_view();
    let mut readings: Vec<TempReading> = Vec::new();
    let mut i: usize = 0;
    assert(readings.deep_view() =~= Seq::<ReadingView>::empty());
    while i < devices.len()
        invariant
            all == devices.deep_view(),
            i <= devices.len(),
            filter matches Some(keep) ==> forall|s: &str| #[trigger] call_requires(*keep, (s,)),
            is_selection(*filter, candidates_upto(all, i as int), readings.deep_view()),
        decreases devices.len() - i,
    {
        let device = &devices[i];
        let ghost done = candidates_upto(all, i as int);
        assert(all[i as int] == device.deep_view());
        assert(done + device_candidates(all[i as int], 0) =~= done);
        let mut j: usize = 0;
        while j < device.sensors.len()
            invariant
                all == devices.deep_view(),
                i < devices.len(),
                all[i as int] == device.deep_view(),
                done == candidates_upto(all, i as int),
                j <= device.sensors.len(),
                filter matches Some(keep) ==> forall|s: &str| #[trigger] call_requires(*keep, (s,)),
                is_selection(
                    *filter,
                    done + device_candidates(all[i as int], j as int),
                    readings.deep_view(),
                ),
            decreases device.sensors.len() - j,
        {
            let sensor = &device.sensors[j];
            let ghost earlier = done + device_candidates(all[i as int], j as int);
            let ghost before = readings.deep_view();
            let ghost candidate = candidate_of(all[i as int].name, sensor.deep_view());
            assert(all[i as int].sensors[j as int] == sensor.deep_view());
            if sensor.sensor_type == LmSensorsSensorType::Temp {
                let ghost now = done + device_candidates(all[i as int], j + 1);
                assert(now =~= earlier.push(candidate));
                assert(now.drop_last() =~= earlier);
                if ask_filter(filter, sensor.name.as_str()) {
                    let reading = TempReading {
                        name: format_friendly_names(device.name.clone(), sensor.name.clone()),
                        value: sensor.value.clone(),
                    };
                    readings.push(reading);
                    assert(readings.deep_view() =~= before.push(candidate.reading));
                    assert(readings.deep_view().drop_last() =~= before);
                }
            }
            j += 1;
        }
        i += 1;
    }
    proof {
        if rejects_all(*filter) {
            lemma_rejecting_filter_leaves_nothing(*filter, candidates(all), readings.deep_view());
        }
        if filter is None {
            lemma_no_filter_keeps_all(*filter, candidates(all), readings.deep_view());
        }
        lemma_selected_names_not_empty(*filter, all, readings.deep_view());
        assert forall|i: int| 0 <= i < readings.len() implies (#[trigger] readings[i]).name@.len()
            > 0 by {
            assert(readings.deep_view()[i].name == readings[i].name@);
        }
    }
    readings
}

/// The temperature readings in the output of the `sensors` tool: those of
/// the temperature sensors whose name `filter` keeps, in the order of the
/// report. `output` is `None` where the tool could not be run or what it
/// printed is no text: there are no readings then, and that is no error.
pub fn get_temperature_data<F: Fn(&str) -> bool>(
    output: Option<&str>,
    filter: &Option<F>,
) -> (readings: Vec<TempReading>)
    requires
        filter matches Some(keep) ==> forall|s: &str| #[trigger] call_requires(*keep, (s,)),
    ensures
        is_selection(
            *filter,
            candidates(output_devices(output.deep_view())),
            readings.deep_view(),
        ),
        output is None ==> readings.len() == 0,
        rejects_all(*filter) ==> readings.len() == 0,
        filter is None ==> readings.deep_view() == readings_of(
            candidates(output_devices(output.deep_view())),
        ),
        forall|i: int| 0 <= i < readings.len() ==> (#[trigger] readings[i]).name@.len() > 0,
{
    let devices = get_lm_sensor_data(output);
    select_temperatures(&devices, filter)
}

} // verus!
