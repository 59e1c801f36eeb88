# itk

Clock synchronisation, drift correction and frame-scaler bookkeeping for shared video
playback, verified with Verus.

- `src/clock.rs`: `ClockSync`, an NTP-style estimate of the offset between a local and a
  remote clock. It keeps the ten most recent ping/pong samples and takes the median offset
  of the half with the lowest round trip times. Contracts state the estimate exactly over
  a mathematical model of the sample window.
- `src/clock_laws.rs`: properties of the estimate and the conversions (a single sample
  gives its own offset, the estimate lies among the window's offsets, slow samples are
  ignored, the two conversions are inverse) and laws over sequences of calls (only the
  last ten exchanges count; an offset exists exactly when an exchange followed the last
  reset).
- `src/drift.rs`: classification of playback drift into rate corrections or a seek.
- `src/scaler.rs`: output geometry, buffer sizing and padded-row copying of an RGBA scaler.
- `src/time.rs`: the wall clock in milliseconds.
- `app/`: the parts that hold floating-point playback rates (`PlaybackSync`,
  `DriftCorrector`), call ffmpeg (`FrameScaler::scale`), log, or derive error messages.
